//! How packets are laid out as protocol-buffer messages.
//!
//! A packet is a message with one category field, numbered by the kind of
//! category, and the payload as bytes. The payload is the message of the
//! body that the category calls for. A field that is missing has its
//! default; where a field comes more than once the last one counts; fields
//! that the layout does not know are read over.

use crate::entity::entity::Point3;
use crate::proto::{
    Body,
    BodyView,
    Category,
    LoginPacketType,
    LogoutPacketType,
    Packet,
    PacketView,
    SyncPacketType,
    TextMessageType,
};
use crate::wire::{
    lemma_bytes_deep_view,
    lemma_fields_written_when_fit,
    fields_read,
    fields_written,
    read_fields,
    write_fields,
    Field,
    FieldValue,
    FieldValueView,
    FieldView,
};
use vstd::prelude::*;
use vstd::slice::slice_to_vec;
use vstd::utf8::{decode_utf8, encode_utf8, valid_utf8};

verus! {

broadcast use lemma_bytes_deep_view;

/// The field of a login category.
pub const LOGIN_FIELD: u32 = 1;

/// The field of a logout category.
pub const LOGOUT_FIELD: u32 = 2;

/// The field of a synchronisation category.
pub const SYNC_FIELD: u32 = 3;

/// The field of a text category.
pub const TEXT_FIELD: u32 = 4;

/// The field of the payload.
pub const PAYLOAD_FIELD: u32 = 5;

/// Converts bytes to a string with `String::from_utf8`. The contract
/// claims what the standard library documents: the conversion succeeds
/// exactly on valid UTF-8, and the string then holds the characters that
/// the bytes encode.
#[verifier::external_body]
fn string_from_utf8(bytes: Vec<u8>) -> (r: Option<String>)
    ensures
        r is Some <==> valid_utf8(bytes@),
        r matches Some(text) ==> text@ == decode_utf8(bytes@),
{
    String::from_utf8(bytes).ok()
}

/// The field and the value that stand for `category`, or `None` for a
/// category that is not known.
pub open spec fn category_code(category: Category) -> Option<(u32, u64)> {
    match category {
        Category::Login(LoginPacketType::Result) => Some((LOGIN_FIELD, 1u64)),
        Category::Login(LoginPacketType::Notification) => Some((LOGIN_FIELD, 2u64)),
        Category::Logout(LogoutPacketType::Request) => Some((LOGOUT_FIELD, 1u64)),
        Category::Logout(LogoutPacketType::Response) => Some((LOGOUT_FIELD, 2u64)),
        Category::Logout(LogoutPacketType::Notification) => Some((LOGOUT_FIELD, 3u64)),
        Category::Sync(SyncPacketType::Transform) => Some((SYNC_FIELD, 1u64)),
        Category::TextMessage(TextMessageType::ChatSend) => Some((TEXT_FIELD, 1u64)),
        Category::TextMessage(TextMessageType::ChatReceive) => Some((TEXT_FIELD, 2u64)),
        Category::Unknown => None,
    }
}

/// The category that `value` in the field `number` stands for.
pub open spec fn category_decoded(number: u32, value: u64) -> Category {
    if number == LOGIN_FIELD && value == 1 {
        Category::Login(LoginPacketType::Result)
    } else if number == LOGIN_FIELD && value == 2 {
        Category::Login(LoginPacketType::Notification)
    } else if number == LOGOUT_FIELD && value == 1 {
        Category::Logout(LogoutPacketType::Request)
    } else if number == LOGOUT_FIELD && value == 2 {
        Category::Logout(LogoutPacketType::Response)
    } else if number == LOGOUT_FIELD && value == 3 {
        Category::Logout(LogoutPacketType::Notification)
    } else if number == SYNC_FIELD && value == 1 {
        Category::Sync(SyncPacketType::Transform)
    } else if number == TEXT_FIELD && value == 1 {
        Category::TextMessage(TextMessageType::ChatSend)
    } else if number == TEXT_FIELD && value == 2 {
        Category::TextMessage(TextMessageType::ChatReceive)
    } else {
        Category::Unknown
    }
}

/// The layout of categories loses nothing: the field and the value that
/// stand for a category stand for no other.
pub proof fn lemma_category_code_is_unambiguous(category: Category)
    ensures
        category_code(category) matches Some((number, value)) ==> category_decoded(number, value)
            == category && LOGIN_FIELD <= number <= TEXT_FIELD,
        category_code(category) is None <==> category == Category::Unknown,
{
}

/// The kind of value by which a field is looked up.
#[derive(Clone, Copy, Debug, PartialEq, Eq, Structural)]
pub enum Kind {
    Varint,
    Fixed32,
    Bytes,
}

/// Whether `field` is looked for: its number is one from `low` to `high`
/// and its value is of `kind`.
pub open spec fn wanted(field: FieldView, low: u32, high: u32, kind: Kind) -> bool {
    &&& low <= field.number <= high
    &&& match kind {
        Kind::Varint => field.value is Varint,
        Kind::Fixed32 => field.value is Fixed32,
        Kind::Bytes => field.value is Bytes,
    }
}

/// The place of the last field of `fields` that is looked for.
pub open spec fn last_place(fields: Seq<FieldView>, low: u32, high: u32, kind: Kind) -> Option<int>
    decreases fields.len(),
{
    if fields.len() == 0 {
        None
    } else if wanted(fields.last(), low, high, kind) {
        Some(fields.len() - 1)
    } else {
        last_place(fields.drop_last(), low, high, kind)
    }
}

/// The category that `fields` name: that of the last category field, or
/// the unknown one where there is none.
pub open spec fn category_read(fields: Seq<FieldView>) -> Category {
    match last_place(fields, LOGIN_FIELD, TEXT_FIELD, Kind::Varint) {
        Some(at) => category_decoded(fields[at].number, fields[at].value->Varint_0),
        None => Category::Unknown,
    }
}

/// The value of the last variable-length integer field `number`.
pub open spec fn last_varint(fields: Seq<FieldView>, number: u32) -> Option<u64> {
    match last_place(fields, number, number, Kind::Varint) {
        Some(at) => Some(fields[at].value->Varint_0),
        None => None,
    }
}

/// The value of the last four-byte field `number`.
pub open spec fn last_fixed32(fields: Seq<FieldView>, number: u32) -> Option<u32> {
    match last_place(fields, number, number, Kind::Fixed32) {
        Some(at) => Some(fields[at].value->Fixed32_0),
        None => None,
    }
}

/// The value of the last length-delimited field `number`.
pub open spec fn last_bytes(fields: Seq<FieldView>, number: u32) -> Option<Seq<u8>> {
    match last_place(fields, number, number, Kind::Bytes) {
        Some(at) => Some(fields[at].value->Bytes_0),
        None => None,
    }
}

/// The integer in field `number`, zero where the field is missing.
pub open spec fn integer_read(fields: Seq<FieldView>, number: u32) -> u64 {
    match last_varint(fields, number) {
        Some(value) => value,
        None => 0,
    }
}

/// The text in field `number`, empty where the field is missing, or `None`
/// where the field does not hold UTF-8.
pub open spec fn text_read(fields: Seq<FieldView>, number: u32) -> Option<Seq<char>> {
    match last_bytes(fields, number) {
        None => Some(Seq::empty()),
        Some(bytes) => if valid_utf8(bytes) {
            Some(decode_utf8(bytes))
        } else {
            None
        },
    }
}

/// The fields of a point: its three coordinates as four-byte values.
pub open spec fn point_fields(point: Point3) -> Seq<FieldView> {
    seq![
        FieldView { number: 1, value: FieldValueView::Fixed32(point.x) },
        FieldView { number: 2, value: FieldValueView::Fixed32(point.y) },
        FieldView { number: 3, value: FieldValueView::Fixed32(point.z) },
    ]
}

/// The point that `fields` hold; a coordinate that is missing is zero.
pub open spec fn point_of_fields(fields: Seq<FieldView>) -> Point3 {
    Point3 {
        x: match last_fixed32(fields, 1) {
            Some(x) => x,
            None => 0,
        },
        y: match last_fixed32(fields, 2) {
            Some(y) => y,
            None => 0,
        },
        z: match last_fixed32(fields, 3) {
            Some(z) => z,
            None => 0,
        },
    }
}

/// The point in field `number`, the origin where the field is missing, or
/// `None` where the field holds no run of fields.
pub open spec fn point_read(fields: Seq<FieldView>, number: u32) -> Option<Point3> {
    match last_bytes(fields, number) {
        None => Some(Point3 { x: 0, y: 0, z: 0 }),
        Some(bytes) => match fields_read(bytes) {
            Some(inner) => Some(point_of_fields(inner)),
            None => None,
        },
    }
}

/// A field that holds an integer.
pub open spec fn integer_field(number: u32, value: u64) -> FieldView {
    FieldView { number, value: FieldValueView::Varint(value) }
}

/// A field that holds bytes.
pub open spec fn bytes_field(number: u32, value: Seq<u8>) -> FieldView {
    FieldView { number, value: FieldValueView::Bytes(value) }
}

/// The fields of `body`, or `None` for the malformed body, which has
/// none.
pub open spec fn body_fields(body: BodyView) -> Option<Seq<FieldView>> {
    match body {
        BodyView::Empty => Some(Seq::empty()),
        BodyView::LoginResult { user_id } => Some(seq![integer_field(1, user_id)]),
        BodyView::LoginNotification { user_id, username } => Some(
            seq![integer_field(1, user_id), bytes_field(2, encode_utf8(username))],
        ),
        BodyView::LogoutResponse { success } => Some(
            seq![integer_field(1, if success { 1u64 } else { 0u64 })],
        ),
        BodyView::LogoutNotification { user_id } => Some(seq![integer_field(1, user_id)]),
        BodyView::TransformSync { position, rotation } => match (
            fields_written(point_fields(position)),
            fields_written(point_fields(rotation)),
        ) {
            (Some(place), Some(turn)) => Some(seq![bytes_field(1, place), bytes_field(2, turn)]),
            _ => None,
        },
        BodyView::ChatMessage { user_id, text } => Some(
            seq![integer_field(1, user_id), bytes_field(2, encode_utf8(text))],
        ),
        BodyView::Malformed => None,
    }
}

/// The payload that holds `body`, or `None` for the malformed body.
pub open spec fn body_written(body: BodyView) -> Option<Seq<u8>> {
    match body_fields(body) {
        Some(fields) => fields_written(fields),
        None => None,
    }
}

/// The bytes of `packet`, or `None` where it cannot be written: its
/// category is not known or its body is malformed.
pub open spec fn packet_written(packet: PacketView) -> Option<Seq<u8>> {
    match (category_code(packet.category), body_written(packet.body)) {
        (Some((number, value)), Some(payload)) => fields_written(
            seq![integer_field(number, value), bytes_field(PAYLOAD_FIELD, payload)],
        ),
        _ => None,
    }
}

/// Whether `packet` can be put on the wire: its category is known and its
/// body is not malformed.
pub open spec fn packet_fits(packet: PacketView) -> bool {
    packet.category != Category::Unknown && !(packet.body is Malformed)
}

/// A body has a payload exactly where it is not malformed, and a packet
/// has bytes exactly where its category is known and its body is not
/// malformed. So every packet that the zone makes itself serialises.
pub proof fn lemma_written_when_fits(packet: PacketView)
    ensures
        body_written(packet.body) is Some <==> !(packet.body is Malformed),
        packet_written(packet) is Some <==> packet_fits(packet),
{
    match packet.body {
        BodyView::TransformSync { position, rotation } => {
            lemma_fields_written_when_fit(point_fields(position));
            lemma_fields_written_when_fit(point_fields(rotation));
        },
        _ => {},
    }
    if !(packet.body is Malformed) {
        lemma_fields_written_when_fit(body_fields(packet.body).unwrap());
        match category_code(packet.category) {
            Some((number, value)) => {
                lemma_fields_written_when_fit(
                    seq![
                        integer_field(number, value),
                        bytes_field(PAYLOAD_FIELD, body_written(packet.body).unwrap()),
                    ],
                );
            },
            None => {},
        }
    }
}

/// The body that `fields` hold for `category`. Text that is no UTF-8, and
/// a point that is no run of fields, give the malformed body.
pub open spec fn body_of_fields(category: Category, fields: Seq<FieldView>) -> BodyView {
    match category {
        Category::Login(LoginPacketType::Result) => BodyView::LoginResult {
            user_id: integer_read(fields, 1),
        },
        Category::Login(LoginPacketType::Notification) => match text_read(fields, 2) {
            Some(username) => BodyView::LoginNotification {
                user_id: integer_read(fields, 1),
                username,
            },
            None => BodyView::Malformed,
        },
        Category::Logout(LogoutPacketType::Request) => BodyView::Empty,
        Category::Logout(LogoutPacketType::Response) => BodyView::LogoutResponse {
            success: integer_read(fields, 1) != 0,
        },
        Category::Logout(LogoutPacketType::Notification) => BodyView::LogoutNotification {
            user_id: integer_read(fields, 1),
        },
        Category::Sync(SyncPacketType::Transform) => match (
            point_read(fields, 1),
            point_read(fields, 2),
        ) {
            (Some(position), Some(rotation)) => BodyView::TransformSync { position, rotation },
            _ => BodyView::Malformed,
        },
        Category::TextMessage(_) => match text_read(fields, 2) {
            Some(text) => BodyView::ChatMessage { user_id: integer_read(fields, 1), text },
            None => BodyView::Malformed,
        },
        Category::Unknown => BodyView::Empty,
    }
}

/// The body that `payload` holds for `category`. A request to leave and an
/// unknown category have no body, whatever the payload. For the others a
/// payload that is no run of fields gives the malformed body.
pub open spec fn body_read(category: Category, payload: Seq<u8>) -> BodyView {
    match category {
        Category::Unknown => BodyView::Empty,
        Category::Logout(LogoutPacketType::Request) => BodyView::Empty,
        _ => match fields_read(payload) {
            None => BodyView::Malformed,
            Some(fields) => body_of_fields(category, fields),
        },
    }
}

/// Whether `body` is the kind of body that `category` calls for.
pub open spec fn body_fits(category: Category, body: BodyView) -> bool {
    match category {
        Category::Login(LoginPacketType::Result) => body is LoginResult,
        Category::Login(LoginPacketType::Notification) => body is LoginNotification,
        Category::Logout(LogoutPacketType::Request) => body is Empty,
        Category::Logout(LogoutPacketType::Response) => body is LogoutResponse,
        Category::Logout(LogoutPacketType::Notification) => body is LogoutNotification,
        Category::Sync(SyncPacketType::Transform) => body is TransformSync,
        Category::TextMessage(_) => body is ChatMessage,
        Category::Unknown => body is Empty,
    }
}

/// The layout of bodies loses nothing: the fields that are written for a
/// body are read as that body. Bodies with points are left out: their
/// fields hold bytes that only the wire can make and read.
pub proof fn lemma_body_fields_round_trip(category: Category, body: BodyView)
    requires
        body_fits(category, body),
        !(body is TransformSync),
    ensures
        body_fields(body) matches Some(fields) && body_of_fields(category, fields) == body,
{
    broadcast use vstd::utf8::encode_utf8_valid_utf8, vstd::utf8::encode_utf8_decode_utf8;

    reveal_with_fuel(last_place, 3);
    let fields = body_fields(body).unwrap();
    match body {
        BodyView::LoginNotification { user_id, username } => {
            assert(fields.drop_last() =~= seq![integer_field(1, user_id)]);
            assert(fields.drop_last().drop_last() =~= Seq::<FieldView>::empty());
        },
        BodyView::ChatMessage { user_id, text } => {
            assert(fields.drop_last() =~= seq![integer_field(1, user_id)]);
            assert(fields.drop_last().drop_last() =~= Seq::<FieldView>::empty());
        },
        BodyView::Empty => {},
        _ => {
            assert(fields.drop_last() =~= Seq::<FieldView>::empty());
        },
    }
}

/// The payload of a message: field five, empty where it is missing.
pub open spec fn payload_read(fields: Seq<FieldView>) -> Seq<u8> {
    match last_bytes(fields, PAYLOAD_FIELD) {
        Some(payload) => payload,
        None => Seq::empty(),
    }
}

/// The packet that `bytes` hold, or `None` where they are no run of
/// fields.
pub open spec fn packet_read(bytes: Seq<u8>) -> Option<PacketView> {
    match fields_read(bytes) {
        None => None,
        Some(fields) => Some(
            PacketView {
                category: category_read(fields),
                body: body_read(category_read(fields), payload_read(fields)),
            },
        ),
    }
}

fn category_to_code(category: Category) -> (code: Option<(u32, u64)>)
    ensures
        code == category_code(category),
{
    match category {
        Category::Login(LoginPacketType::Result) => Some((LOGIN_FIELD, 1)),
        Category::Login(LoginPacketType::Notification) => Some((LOGIN_FIELD, 2)),
        Category::Logout(LogoutPacketType::Request) => Some((LOGOUT_FIELD, 1)),
        Category::Logout(LogoutPacketType::Response) => Some((LOGOUT_FIELD, 2)),
        Category::Logout(LogoutPacketType::Notification) => Some((LOGOUT_FIELD, 3)),
        Category::Sync(SyncPacketType::Transform) => Some((SYNC_FIELD, 1)),
        Category::TextMessage(TextMessageType::ChatSend) => Some((TEXT_FIELD, 1)),
        Category::TextMessage(TextMessageType::ChatReceive) => Some((TEXT_FIELD, 2)),
        Category::Unknown => None,
    }
}

fn category_from_code(number: u32, value: u64) -> (category: Category)
    ensures
        category == category_decoded(number, value),
{
    if number == LOGIN_FIELD && value == 1 {
        Category::Login(LoginPacketType::Result)
    } else if number == LOGIN_FIELD && value == 2 {
        Category::Login(LoginPacketType::Notification)
    } else if number == LOGOUT_FIELD && value == 1 {
        Category::Logout(LogoutPacketType::Request)
    } else if number == LOGOUT_FIELD && value == 2 {
        Category::Logout(LogoutPacketType::Response)
    } else if number == LOGOUT_FIELD && value == 3 {
        Category::Logout(LogoutPacketType::Notification)
    } else if number == SYNC_FIELD && value == 1 {
        Category::Sync(SyncPacketType::Transform)
    } else if number == TEXT_FIELD && value == 1 {
        Category::TextMessage(TextMessageType::ChatSend)
    } else if number == TEXT_FIELD && value == 2 {
        Category::TextMessage(TextMessageType::ChatReceive)
    } else {
        Category::Unknown
    }
}

/// The place of the last field that is looked for.
fn find_last(fields: &Vec<Field>, low: u32, high: u32, kind: Kind) -> (place: Option<usize>)
    ensures
        match place {
            Some(at) => at < fields.len() && wanted(fields.deep_view()[at as int], low, high, kind)
                && last_place(fields.deep_view(), low, high, kind) == Some(at as int),
            None => last_place(fields.deep_view(), low, high, kind) is None,
        },
{
    let ghost all = fields.deep_view();
    let mut i: usize = fields.len();
    assert(all.take(i as int) =~= all);
    while i > 0
        invariant
            i <= fields.len(),
            all == fields.deep_view(),
            last_place(all, low, high, kind) == last_place(all.take(i as int), low, high, kind),
        decreases i,
    {
        i -= 1;
        proof {
            assert(all.take(i + 1).drop_last() =~= all.take(i as int));
            assert(all.take(i + 1).last() == fields[i as int].deep_view());
        }
        let field = &fields[i];
        let fits = match (kind, &field.value) {
            (Kind::Varint, FieldValue::Varint(_)) => true,
            (Kind::Fixed32, FieldValue::Fixed32(_)) => true,
            (Kind::Bytes, FieldValue::Bytes(_)) => true,
            _ => false,
        };
        if low <= field.number && field.number <= high && fits {
            return Some(i);
        }
    }
    None
}

fn find_category(fields: &Vec<Field>) -> (category: Category)
    ensures
        category == category_read(fields.deep_view()),
{
    match find_last(fields, LOGIN_FIELD, TEXT_FIELD, Kind::Varint) {
        Some(at) => match fields[at].value {
            FieldValue::Varint(value) => category_from_code(fields[at].number, value),
            _ => Category::Unknown,
        },
        None => Category::Unknown,
    }
}

fn find_varint(fields: &Vec<Field>, number: u32) -> (found: Option<u64>)
    ensures
        found == last_varint(fields.deep_view(), number),
{
    match find_last(fields, number, number, Kind::Varint) {
        Some(at) => match fields[at].value {
            FieldValue::Varint(value) => Some(value),
            _ => None,
        },
        None => None,
    }
}

fn find_fixed32(fields: &Vec<Field>, number: u32) -> (found: Option<u32>)
    ensures
        found == last_fixed32(fields.deep_view(), number),
{
    match find_last(fields, number, number, Kind::Fixed32) {
        Some(at) => match fields[at].value {
            FieldValue::Fixed32(value) => Some(value),
            _ => None,
        },
        None => None,
    }
}

fn find_bytes(fields: &Vec<Field>, number: u32) -> (found: Option<&Vec<u8>>)
    ensures
        match found {
            Some(bytes) => last_bytes(fields.deep_view(), number) == Some(bytes@),
            None => last_bytes(fields.deep_view(), number) is None,
        },
{
    match find_last(fields, number, number, Kind::Bytes) {
        Some(at) => match &fields[at].value {
            FieldValue::Bytes(value) => Some(value),
            _ => None,
        },
        None => None,
    }
}

fn read_integer(fields: &Vec<Field>, number: u32) -> (value: u64)
    ensures
        value == integer_read(fields.deep_view(), number),
{
    match find_varint(fields, number) {
        Some(value) => value,
        None => 0,
    }
}

fn read_text(fields: &Vec<Field>, number: u32) -> (text: Option<String>)
    ensures
        match text {
            Some(t) => text_read(fields.deep_view(), number) == Some(t@),
            None => text_read(fields.deep_view(), number) is None,
        },
{
    match find_bytes(fields, number) {
        None => Some(String::new()),
        Some(bytes) => string_from_utf8(slice_to_vec(bytes.as_slice())),
    }
}

fn read_point(fields: &Vec<Field>, number: u32) -> (point: Option<Point3>)
    ensures
        point == point_read(fields.deep_view(), number),
{
    match find_bytes(fields, number) {
        None => Some(Point3 { x: 0, y: 0, z: 0 }),
        Some(bytes) => match read_fields(bytes.as_slice()) {
            None => None,
            Some(inner) => Some(
                Point3 {
                    x: match find_fixed32(&inner, 1) {
                        Some(x) => x,
                        None => 0,
                    },
                    y: match find_fixed32(&inner, 2) {
                        Some(y) => y,
                        None => 0,
                    },
                    z: match find_fixed32(&inner, 3) {
                        Some(z) => z,
                        None => 0,
                    },
                },
            ),
        },
    }
}

fn integer(number: u32, value: u64) -> (field: Field)
    ensures
        field.deep_view() == integer_field(number, value),
{
    Field { number, value: FieldValue::Varint(value) }
}

fn bytes(number: u32, value: Vec<u8>) -> (field: Field)
    ensures
        field.deep_view() == bytes_field(number, value@),
{
    Field { number, value: FieldValue::Bytes(value) }
}

fn text(number: u32, value: &str) -> (field: Field)
    ensures
        field.deep_view() == bytes_field(number, encode_utf8(value@)),
{
    bytes(number, slice_to_vec(value.as_bytes()))
}

fn write_point(point: Point3) -> (written: Option<Vec<u8>>)
    ensures
        written.deep_view() == fields_written(point_fields(point)),
{
    let mut fields: Vec<Field> = Vec::new();
    fields.push(Field { number: 1, value: FieldValue::Fixed32(point.x) });
    fields.push(Field { number: 2, value: FieldValue::Fixed32(point.y) });
    fields.push(Field { number: 3, value: FieldValue::Fixed32(point.z) });
    assert(fields.deep_view() =~= point_fields(point));
    write_fields(&fields)
}

/// The payload that holds `body`.
pub fn encode_body(body: &Body) -> (payload: Option<Vec<u8>>)
    ensures
        payload.deep_view() == body_written(body@),
        payload is Some <==> !(body@ is Malformed),
{
    proof {
        lemma_written_when_fits(PacketView { category: Category::Unknown, body: body@ });
    }
    let mut fields: Vec<Field> = Vec::new();
    match body {
        Body::Empty => {
            assert(fields.deep_view() =~= Seq::empty());
        },
        Body::LoginResult { user_id } => {
            fields.push(integer(1, *user_id));
            assert(fields.deep_view() =~= seq![integer_field(1, *user_id)]);
        },
        Body::LoginNotification { user_id, username } => {
            fields.push(integer(1, *user_id));
            fields.push(text(2, username.as_str()));
            assert(fields.deep_view() =~= seq![
                integer_field(1, *user_id),
                bytes_field(2, encode_utf8(username@)),
            ]);
        },
        Body::LogoutResponse { success } => {
            let flag: u64 = if *success {
                1
            } else {
                0
            };
            fields.push(integer(1, flag));
            assert(fields.deep_view() =~= seq![integer_field(1, flag)]);
        },
        Body::LogoutNotification { user_id } => {
            fields.push(integer(1, *user_id));
            assert(fields.deep_view() =~= seq![integer_field(1, *user_id)]);
        },
        Body::TransformSync { position, rotation } => {
            let place = write_point(*position);
            let turn = write_point(*rotation);
            match (place, turn) {
                (Some(place), Some(turn)) => {
                    fields.push(bytes(1, place));
                    fields.push(bytes(2, turn));
                    assert(fields.deep_view() =~= seq![
                        bytes_field(1, place@),
                        bytes_field(2, turn@),
                    ]);
                },
                _ => {
                    return None;
                },
            }
        },
        Body::ChatMessage { user_id, text: line } => {
            fields.push(integer(1, *user_id));
            fields.push(text(2, line.as_str()));
            assert(fields.deep_view() =~= seq![
                integer_field(1, *user_id),
                bytes_field(2, encode_utf8(line@)),
            ]);
        },
        Body::Malformed => {
            return None;
        },
    }
    assert(Some(fields.deep_view()) == body_fields(body@));
    write_fields(&fields)
}

/// The bytes of a message with `category` and `payload`, or `None` where
/// the category is not known.
pub fn encode_envelope(category: Category, payload: Vec<u8>) -> (written: Option<Vec<u8>>)
    ensures
        written.deep_view() == match category_code(category) {
            Some((number, value)) => fields_written(
                seq![integer_field(number, value), bytes_field(PAYLOAD_FIELD, payload@)],
            ),
            None => None,
        },
        written is Some <==> category != Category::Unknown,
{
    match category_to_code(category) {
        None => None,
        Some((number, value)) => {
            let ghost expected = seq![
                integer_field(number, value),
                bytes_field(PAYLOAD_FIELD, payload@),
            ];
            let mut fields: Vec<Field> = Vec::new();
            fields.push(integer(number, value));
            fields.push(bytes(PAYLOAD_FIELD, payload));
            assert(fields.deep_view() =~= expected);
            write_fields(&fields)
        },
    }
}

/// The bytes of `packet`, or `None` where it cannot be put on the wire.
pub fn serialize(packet: &Packet) -> (written: Option<Vec<u8>>)
    ensures
        written.deep_view() == packet_written(packet@),
        written is Some <==> packet_fits(packet@),
{
    proof {
        lemma_written_when_fits(packet@);
    }
    if let Category::Unknown = packet.category {
        return None;
    }
    match encode_body(&packet.body) {
        None => None,
        Some(payload) => encode_envelope(packet.category, payload),
    }
}

/// The body that `payload` holds for `category`.
pub fn decode_body(category: Category, payload: &[u8]) -> (body: Body)
    ensures
        body@ == body_read(category, payload@),
{
    match category {
        Category::Unknown => {
            return Body::Empty;
        },
        Category::Logout(LogoutPacketType::Request) => {
            return Body::Empty;
        },
        _ => {},
    }
    let fields = match read_fields(payload) {
        None => {
            return Body::Malformed;
        },
        Some(fields) => fields,
    };
    match category {
        Category::Login(LoginPacketType::Result) => Body::LoginResult {
            user_id: read_integer(&fields, 1),
        },
        Category::Login(LoginPacketType::Notification) => match read_text(&fields, 2) {
            Some(username) => Body::LoginNotification {
                user_id: read_integer(&fields, 1),
                username,
            },
            None => Body::Malformed,
        },
        Category::Logout(LogoutPacketType::Response) => Body::LogoutResponse {
            success: read_integer(&fields, 1) != 0,
        },
        Category::Logout(LogoutPacketType::Notification) => Body::LogoutNotification {
            user_id: read_integer(&fields, 1),
        },
        Category::Sync(SyncPacketType::Transform) => match (
            read_point(&fields, 1),
            read_point(&fields, 2),
        ) {
            (Some(position), Some(rotation)) => Body::TransformSync { position, rotation },
            _ => Body::Malformed,
        },
        Category::TextMessage(_) => match read_text(&fields, 2) {
            Some(line) => Body::ChatMessage { user_id: read_integer(&fields, 1), text: line },
            None => Body::Malformed,
        },
        _ => Body::Empty,
    }
}

/// The packet that `bytes` hold, or `None` where they hold none.
pub fn parse(bytes: &[u8]) -> (packet: Option<Packet>)
    ensures
        packet.deep_view() == packet_read(bytes@),
{
    match read_fields(bytes) {
        None => None,
        Some(fields) => {
            let category = find_category(&fields);
            let body = match find_bytes(&fields, PAYLOAD_FIELD) {
                Some(payload) => decode_body(category, payload.as_slice()),
                None => {
                    let empty: Vec<u8> = Vec::new();
                    decode_body(category, empty.as_slice())
                },
            };
            Some(Packet { category, body })
        },
    }
}

} // verus!

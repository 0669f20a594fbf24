use game_zone::codec::{decode_body, encode_body, encode_envelope, parse, serialize};
use game_zone::entity::entity::Point3;
use game_zone::proto::{
    Body,
    Category,
    LoginPacketType,
    LogoutPacketType,
    Packet,
    SyncPacketType,
    TextMessageType,
};
use game_zone::wire::{read_fields, write_fields, Field, FieldValue};

fn point(x: f32, y: f32, z: f32) -> Point3 {
    Point3::new(x.to_bits(), y.to_bits(), z.to_bits())
}

#[test]
fn uint64_field_is_a_tag_and_a_varint() {
    let fields = vec![Field { number: 1, value: FieldValue::Varint(300) }];
    assert_eq!(write_fields(&fields), Some(vec![0x08, 0xac, 0x02]));
    assert_eq!(read_fields(&[0x08, 0xac, 0x02]), Some(fields));
}

#[test]
fn fixed32_field_is_a_tag_and_four_bytes() {
    let fields = vec![Field { number: 2, value: FieldValue::Fixed32(1.0f32.to_bits()) }];
    assert_eq!(write_fields(&fields), Some(vec![0x15, 0x00, 0x00, 0x80, 0x3f]));
    assert_eq!(read_fields(&[0x15, 0x00, 0x00, 0x80, 0x3f]), Some(fields));
}

#[test]
fn bytes_field_is_a_tag_a_length_and_the_bytes() {
    let fields = vec![Field { number: 5, value: FieldValue::Bytes(vec![7, 8, 9]) }];
    assert_eq!(write_fields(&fields), Some(vec![0x2a, 0x03, 7, 8, 9]));
    assert_eq!(read_fields(&[0x2a, 0x03, 7, 8, 9]), Some(fields));
}

#[test]
fn fields_are_written_one_after_the_other() {
    let fields = vec![
        Field { number: 1, value: FieldValue::Varint(1) },
        Field { number: 5, value: FieldValue::Bytes(vec![]) },
        Field { number: 3, value: FieldValue::Fixed32(0) },
    ];
    let bytes = write_fields(&fields).unwrap();
    assert_eq!(bytes, vec![0x08, 0x01, 0x2a, 0x00, 0x1d, 0, 0, 0, 0]);
    assert_eq!(read_fields(&bytes), Some(fields));
    assert_eq!(write_fields(&vec![]), Some(vec![]));
    assert_eq!(read_fields(&[]), Some(vec![]));
}

#[test]
fn fields_that_cannot_be_written_give_nothing() {
    assert_eq!(write_fields(&vec![Field { number: 0, value: FieldValue::Varint(1) }]), None);
    assert_eq!(
        write_fields(&vec![Field { number: 0x2000_0000, value: FieldValue::Varint(1) }]),
        None
    );
    assert_eq!(write_fields(&vec![Field { number: 1, value: FieldValue::Other }]), None);
    assert_eq!(
        write_fields(&vec![
            Field { number: 1, value: FieldValue::Varint(1) },
            Field { number: 2, value: FieldValue::Other },
        ]),
        None
    );
    assert!(write_fields(&vec![Field { number: 0x1fff_ffff, value: FieldValue::Varint(1) }])
        .is_some());
}

#[test]
fn other_wire_types_are_read_over() {
    // Field 1 as fixed64, then field 2 as varint.
    let bytes = [0x09, 1, 2, 3, 4, 5, 6, 7, 8, 0x10, 0x05];
    assert_eq!(
        read_fields(&bytes),
        Some(vec![
            Field { number: 1, value: FieldValue::Other },
            Field { number: 2, value: FieldValue::Varint(5) },
        ])
    );
}

#[test]
fn broken_runs_of_fields_are_refused() {
    // A varint that does not end.
    assert_eq!(read_fields(&[0x08, 0xff]), None);
    // A length that runs past the end.
    assert_eq!(read_fields(&[0x2a, 0x05, 1, 2]), None);
    // Four bytes that are not there.
    assert_eq!(read_fields(&[0x15, 0, 0]), None);
    // Field number zero.
    assert_eq!(read_fields(&[0x00, 0x01]), None);
    // A wire type that does not exist.
    assert_eq!(read_fields(&[0x0f, 0x01]), None);
    // A tag without a value.
    assert_eq!(read_fields(&[0x08]), None);
}

#[test]
fn every_kind_of_packet_survives_the_wire() {
    let packets = vec![
        Packet::login_result(0),
        Packet::login_result(u64::MAX),
        Packet::login_notification(7, "Player7".to_string()),
        Packet::logout_request(),
        Packet::logout_response(true),
        Packet::logout_response(false),
        Packet::logout_notification(12),
        Packet::transform_sync(point(1.0, 2.0, 3.0), point(0.0, -0.5, f32::MAX)),
        Packet::chat_send(3, "hello".to_string()),
        Packet::chat_receive(3, "grüße, 世界".to_string()),
        Packet::chat_receive(3, String::new()),
    ];
    for packet in packets {
        let bytes = serialize(&packet).expect("serialises");
        assert_eq!(parse(&bytes), Some(packet));
    }
}

#[test]
fn login_result_has_the_expected_bytes() {
    // Category: field 1, value 1. Payload: field 5, holding field 1 = 5.
    assert_eq!(serialize(&Packet::login_result(5)), Some(vec![0x08, 0x01, 0x2a, 0x02, 0x08, 0x05]));
    assert_eq!(encode_body(&Body::LoginResult { user_id: 5 }), Some(vec![0x08, 0x05]));
    assert_eq!(
        encode_envelope(Category::Login(LoginPacketType::Result), vec![0x08, 0x05]),
        Some(vec![0x08, 0x01, 0x2a, 0x02, 0x08, 0x05])
    );
}

#[test]
fn packets_that_cannot_be_written_give_nothing() {
    assert_eq!(serialize(&Packet::new(Category::Unknown, Body::Empty)), None);
    assert_eq!(
        serialize(&Packet::new(Category::Logout(LogoutPacketType::Request), Body::Malformed)),
        None
    );
    assert_eq!(encode_body(&Body::Malformed), None);
    assert_eq!(encode_envelope(Category::Unknown, vec![]), None);
}

#[test]
fn missing_fields_have_their_defaults() {
    assert_eq!(
        decode_body(Category::Login(LoginPacketType::Result), &[]),
        Body::LoginResult { user_id: 0 }
    );
    assert_eq!(
        decode_body(Category::TextMessage(TextMessageType::ChatSend), &[]),
        Body::ChatMessage { user_id: 0, text: String::new() }
    );
    assert_eq!(
        decode_body(Category::Sync(SyncPacketType::Transform), &[]),
        Body::TransformSync { position: point(0.0, 0.0, 0.0), rotation: point(0.0, 0.0, 0.0) }
    );
    assert_eq!(
        decode_body(Category::Logout(LogoutPacketType::Response), &[]),
        Body::LogoutResponse { success: false }
    );
    assert_eq!(parse(&[]), Some(Packet::new(Category::Unknown, Body::Empty)));
}

#[test]
fn the_last_of_repeated_fields_counts() {
    assert_eq!(
        decode_body(Category::Login(LoginPacketType::Result), &[0x08, 0x01, 0x08, 0x02]),
        Body::LoginResult { user_id: 2 }
    );
    // Two category fields: logout request, then sync transform.
    let packet = parse(&[0x10, 0x01, 0x18, 0x01]).unwrap();
    assert_eq!(packet.category, Category::Sync(SyncPacketType::Transform));
}

#[test]
fn payloads_that_do_not_decode_give_a_malformed_body() {
    let sync = Category::Sync(SyncPacketType::Transform);
    let chat = Category::TextMessage(TextMessageType::ChatSend);
    assert_eq!(decode_body(sync, &[0xff]), Body::Malformed);
    // The position is no run of fields.
    assert_eq!(decode_body(sync, &[0x0a, 0x01, 0xff]), Body::Malformed);
    // The text is no UTF-8.
    assert_eq!(decode_body(chat, &[0x12, 0x02, 0xc3, 0x28]), Body::Malformed);
    let bytes = encode_envelope(sync, vec![0xff]).unwrap();
    assert_eq!(parse(&bytes), Some(Packet::new(sync, Body::Malformed)));
}

#[test]
fn categories_without_a_body_ignore_the_payload() {
    let request = Category::Logout(LogoutPacketType::Request);
    assert_eq!(decode_body(request, &[0xff, 0xff]), Body::Empty);
    assert_eq!(decode_body(Category::Unknown, &[0xff]), Body::Empty);
    let bytes = encode_envelope(request, vec![0xff]).unwrap();
    assert_eq!(parse(&bytes), Some(Packet::logout_request()));
}

#[test]
fn unknown_category_values_are_unknown() {
    // Field 1 (login) with value 9, and field 9 with value 1.
    assert_eq!(parse(&[0x08, 0x09]).unwrap().category, Category::Unknown);
    assert_eq!(parse(&[0x48, 0x01]).unwrap().category, Category::Unknown);
}

#[test]
fn frames_that_are_no_messages_are_refused() {
    assert_eq!(parse(&[0xff]), None);
    assert_eq!(parse(&[0x2a, 0x7f, 0x00]), None);
}

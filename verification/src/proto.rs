//! Packets as the zone sees them: a category and the typed body that the
//! wire codec made of the payload.

use crate::entity::entity::Point3;
use vstd::prelude::*;

verus! {

/// The kinds of packet about logging in.
#[derive(Clone, Copy, Debug, PartialEq, Eq, Structural)]
pub enum LoginPacketType {
    Result,
    Notification,
}

/// The kinds of packet about logging out.
#[derive(Clone, Copy, Debug, PartialEq, Eq, Structural)]
pub enum LogoutPacketType {
    Request,
    Response,
    Notification,
}

/// The kinds of packet that synchronise entity state.
#[derive(Clone, Copy, Debug, PartialEq, Eq, Structural)]
pub enum SyncPacketType {
    Transform,
}

/// The kinds of packet that carry text.
#[derive(Clone, Copy, Debug, PartialEq, Eq, Structural)]
pub enum TextMessageType {
    ChatSend,
    ChatReceive,
}

/// The category of a packet. It decides which body the payload holds.
#[derive(Clone, Copy, Debug, PartialEq, Eq, Structural)]
pub enum Category {
    Login(LoginPacketType),
    Logout(LogoutPacketType),
    Sync(SyncPacketType),
    TextMessage(TextMessageType),
    /// A category this zone does not know.
    Unknown,
}

/// The typed body of a packet.
#[derive(Debug, PartialEq, Eq)]
pub enum Body {
    /// The packet carries no body.
    Empty,
    LoginResult { user_id: u64 },
    LoginNotification { user_id: u64, username: String },
    LogoutResponse { success: bool },
    LogoutNotification { user_id: u64 },
    TransformSync { position: Point3, rotation: Point3 },
    ChatMessage { user_id: u64, text: String },
    /// The payload could not be decoded as the body of the packet's category.
    Malformed,
}

/// The mathematical value of a [`Body`].
pub enum BodyView {
    Empty,
    LoginResult { user_id: u64 },
    LoginNotification { user_id: u64, username: Seq<char> },
    LogoutResponse { success: bool },
    LogoutNotification { user_id: u64 },
    TransformSync { position: Point3, rotation: Point3 },
    ChatMessage { user_id: u64, text: Seq<char> },
    Malformed,
}

impl View for Body {
    type V = BodyView;

    open spec fn view(&self) -> BodyView {
        match *self {
            Body::Empty => BodyView::Empty,
            Body::LoginResult { user_id } => BodyView::LoginResult { user_id },
            Body::LoginNotification { user_id, username } => BodyView::LoginNotification {
                user_id,
                username: username@,
            },
            Body::LogoutResponse { success } => BodyView::LogoutResponse { success },
            Body::LogoutNotification { user_id } => BodyView::LogoutNotification { user_id },
            Body::TransformSync { position, rotation } => BodyView::TransformSync {
                position,
                rotation,
            },
            Body::ChatMessage { user_id, text } => BodyView::ChatMessage { user_id, text: text@ },
            Body::Malformed => BodyView::Malformed,
        }
    }
}

impl DeepView for Body {
    type V = BodyView;

    open spec fn deep_view(&self) -> BodyView {
        self@
    }
}

impl Clone for Body {
    fn clone(&self) -> (r: Self)
        ensures
            r@ == self@,
    {
        match self {
            Body::Empty => Body::Empty,
            Body::LoginResult { user_id } => Body::LoginResult { user_id: *user_id },
            Body::LoginNotification { user_id, username } => Body::LoginNotification {
                user_id: *user_id,
                username: username.clone(),
            },
            Body::LogoutResponse { success } => Body::LogoutResponse { success: *success },
            Body::LogoutNotification { user_id } => Body::LogoutNotification { user_id: *user_id },
            Body::TransformSync { position, rotation } => Body::TransformSync {
                position: *position,
                rotation: *rotation,
            },
            Body::ChatMessage { user_id, text } => Body::ChatMessage {
                user_id: *user_id,
                text: text.clone(),
            },
            Body::Malformed => Body::Malformed,
        }
    }
}

/// One packet: its category and its body.
#[derive(Debug, PartialEq, Eq)]
pub struct Packet {
    pub category: Category,
    pub body: Body,
}

/// The mathematical value of a [`Packet`].
pub struct PacketView {
    pub category: Category,
    pub body: BodyView,
}

impl View for Packet {
    type V = PacketView;

    open spec fn view(&self) -> PacketView {
        PacketView { category: self.category, body: self.body@ }
    }
}

impl PacketView {
    /// Tells a new connection the identity it was given.
    pub open spec fn login_result(user_id: u64) -> PacketView {
        PacketView {
            category: Category::Login(LoginPacketType::Result),
            body: BodyView::LoginResult { user_id },
        }
    }

    /// Tells the others that a connection was accepted.
    pub open spec fn login_notification(user_id: u64, username: Seq<char>) -> PacketView {
        PacketView {
            category: Category::Login(LoginPacketType::Notification),
            body: BodyView::LoginNotification { user_id, username },
        }
    }

    /// Asks the zone to let the sender leave.
    pub open spec fn logout_request() -> PacketView {
        PacketView { category: Category::Logout(LogoutPacketType::Request), body: BodyView::Empty }
    }

    /// Answers a request to leave.
    pub open spec fn logout_response(success: bool) -> PacketView {
        PacketView {
            category: Category::Logout(LogoutPacketType::Response),
            body: BodyView::LogoutResponse { success },
        }
    }

    /// Tells the others that a connection leaves.
    pub open spec fn logout_notification(user_id: u64) -> PacketView {
        PacketView {
            category: Category::Logout(LogoutPacketType::Notification),
            body: BodyView::LogoutNotification { user_id },
        }
    }

    /// Reports where the sender is and how it is turned.
    pub open spec fn transform_sync(position: Point3, rotation: Point3) -> PacketView {
        PacketView {
            category: Category::Sync(SyncPacketType::Transform),
            body: BodyView::TransformSync { position, rotation },
        }
    }

    /// Says `text` to the zone.
    pub open spec fn chat_send(user_id: u64, text: Seq<char>) -> PacketView {
        PacketView {
            category: Category::TextMessage(TextMessageType::ChatSend),
            body: BodyView::ChatMessage { user_id, text },
        }
    }

    /// Hands on what `user_id` said.
    pub open spec fn chat_receive(user_id: u64, text: Seq<char>) -> PacketView {
        PacketView {
            category: Category::TextMessage(TextMessageType::ChatReceive),
            body: BodyView::ChatMessage { user_id, text },
        }
    }
}

impl Packet {
    pub fn new(category: Category, body: Body) -> (packet: Packet)
        ensures
            packet.category == category,
            packet.body == body,
    {
        Packet { category, body }
    }

    /// Tells a new connection the identity it was given.
    pub fn login_result(user_id: u64) -> (packet: Packet)
        ensures
            packet@ == PacketView::login_result(user_id),
    {
        Packet {
            category: Category::Login(LoginPacketType::Result),
            body: Body::LoginResult { user_id },
        }
    }

    /// Tells the others that a connection was accepted.
    pub fn login_notification(user_id: u64, username: String) -> (packet: Packet)
        ensures
            packet@ == PacketView::login_notification(user_id, username@),
    {
        Packet {
            category: Category::Login(LoginPacketType::Notification),
            body: Body::LoginNotification { user_id, username },
        }
    }

    /// Asks the zone to let the sender leave.
    pub fn logout_request() -> (packet: Packet)
        ensures
            packet@ == PacketView::logout_request(),
    {
        Packet { category: Category::Logout(LogoutPacketType::Request), body: Body::Empty }
    }

    /// Answers a request to leave.
    pub fn logout_response(success: bool) -> (packet: Packet)
        ensures
            packet@ == PacketView::logout_response(success),
    {
        Packet {
            category: Category::Logout(LogoutPacketType::Response),
            body: Body::LogoutResponse { success },
        }
    }

    /// Tells the others that a connection leaves.
    pub fn logout_notification(user_id: u64) -> (packet: Packet)
        ensures
            packet@ == PacketView::logout_notification(user_id),
    {
        Packet {
            category: Category::Logout(LogoutPacketType::Notification),
            body: Body::LogoutNotification { user_id },
        }
    }

    /// Reports where the sender is and how it is turned.
    pub fn transform_sync(position: Point3, rotation: Point3) -> (packet: Packet)
        ensures
            packet@ == PacketView::transform_sync(position, rotation),
    {
        Packet {
            category: Category::Sync(SyncPacketType::Transform),
            body: Body::TransformSync { position, rotation },
        }
    }

    /// Says `text` to the zone.
    pub fn chat_send(user_id: u64, text: String) -> (packet: Packet)
        ensures
            packet@ == PacketView::chat_send(user_id, text@),
    {
        Packet {
            category: Category::TextMessage(TextMessageType::ChatSend),
            body: Body::ChatMessage { user_id, text },
        }
    }

    /// Hands on what `user_id` said.
    pub fn chat_receive(user_id: u64, text: String) -> (packet: Packet)
        ensures
            packet@ == PacketView::chat_receive(user_id, text@),
    {
        Packet {
            category: Category::TextMessage(TextMessageType::ChatReceive),
            body: Body::ChatMessage { user_id, text },
        }
    }
}

impl DeepView for Packet {
    type V = PacketView;

    open spec fn deep_view(&self) -> PacketView {
        self@
    }
}

impl Clone for Packet {
    fn clone(&self) -> (r: Self)
        ensures
            r@ == self@,
    {
        Packet { category: self.category, body: self.body.clone() }
    }
}

} // verus!

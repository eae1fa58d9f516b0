//! What Telegram's replies hold, as plain values.
//!
//! Each type keeps the fields that the rules of this library read.

use vstd::prelude::*;

verus! {

/// Who a message belongs to.
#[derive(Debug, Clone, Copy, PartialEq, Eq, Structural)]
pub enum Peer {
    User(i64),
    Chat(i64),
    Channel(i64),
}

/// A peer as a request names it.
#[derive(Debug, Clone, Copy, PartialEq, Eq, Structural)]
pub enum InputPeer {
    Empty,
    User { user_id: i64, access_hash: i64 },
    Chat { chat_id: i64 },
    Channel { channel_id: i64, access_hash: i64 },
}

/// An account in a reply's list of users.
#[derive(Debug, Clone)]
pub struct UserData {
    pub id: i64,
    pub first_name: Option<String>,
    pub last_name: Option<String>,
    pub username: Option<String>,
    pub phone: Option<String>,
    pub access_hash: Option<i64>,
    pub verified: bool,
    pub bot: bool,
    pub online: bool,
    pub photo_id: Option<i64>,
}

#[derive(Debug, Clone)]
pub enum User {
    Empty,
    User(UserData),
}

/// A basic group.
#[derive(Debug, Clone)]
pub struct GroupData {
    pub id: i64,
    pub title: String,
    pub photo_id: Option<i64>,
}

/// A channel or supergroup.
#[derive(Debug, Clone)]
pub struct ChannelData {
    pub id: i64,
    pub title: String,
    pub username: Option<String>,
    pub access_hash: Option<i64>,
    pub broadcast: bool,
    pub megagroup: bool,
    pub verified: bool,
    pub photo_id: Option<i64>,
}

/// A chat in a reply's list of chats.
#[derive(Debug, Clone)]
pub enum Chat {
    Chat(GroupData),
    Channel(ChannelData),
    Other,
}

/// One of the sizes in which a photo can be had.
#[derive(Debug, Clone)]
pub enum PhotoSize {
    Size { kind: String, size: i32 },
    Other,
}

#[derive(Debug, Clone)]
pub struct PhotoData {
    pub id: i64,
    pub access_hash: i64,
    pub file_reference: Vec<u8>,
    pub dc_id: i32,
    pub sizes: Vec<PhotoSize>,
}

#[derive(Debug, Clone)]
pub enum Photo {
    Empty,
    Photo(PhotoData),
}

/// What a document's attributes say.
#[derive(Debug, Clone)]
pub enum DocumentAttribute {
    Filename(String),
    Audio { voice: bool },
    Video { round_message: bool },
    Animated,
    Other,
}

#[derive(Debug, Clone)]
pub struct DocumentData {
    pub id: i64,
    pub access_hash: i64,
    pub file_reference: Vec<u8>,
    pub dc_id: i32,
    pub size: i64,
    pub mime_type: String,
    pub attributes: Vec<DocumentAttribute>,
    pub thumbs: Option<Vec<PhotoSize>>,
}

#[derive(Debug, Clone)]
pub enum Document {
    Empty,
    Document(DocumentData),
}

/// A page that a message links to.
#[derive(Debug, Clone)]
pub struct PageData {
    pub url: String,
    pub site_name: Option<String>,
    pub title: Option<String>,
    pub description: Option<String>,
    pub embed_url: Option<String>,
    pub page_type: Option<String>,
    pub duration: Option<i32>,
}

#[derive(Debug, Clone)]
pub enum WebPage {
    Page(PageData),
    Other,
}

/// What is attached to a message.
#[derive(Debug, Clone)]
pub enum MessageMedia {
    Photo(Option<Photo>),
    Document(Option<Document>),
    WebPage(WebPage),
    Geo,
    Contact,
    Poll,
    Game,
    Venue,
    Other,
}

#[derive(Debug, Clone)]
pub struct MessageData {
    pub id: i32,
    pub date: i32,
    pub peer: Peer,
    pub text: String,
    pub grouped_id: Option<i64>,
    pub media: Option<MessageMedia>,
}

#[derive(Debug, Clone)]
pub enum Message {
    Empty { id: i32 },
    Message(MessageData),
    Service { id: i32, date: i32, peer: Peer },
}

/// One row of the list of dialogs.
#[derive(Debug, Clone, Copy)]
pub struct DialogData {
    pub peer: Peer,
    pub top_message: i32,
    pub unread_count: i32,
    pub pinned: bool,
    pub mute_until: Option<i32>,
}

#[derive(Debug, Clone, Copy)]
pub enum Dialog {
    Dialog(DialogData),
    Folder,
}

/// Where the bytes of a file are.
#[derive(Debug, Clone)]
pub enum FileLocation {
    Document { id: i64, access_hash: i64, file_reference: Vec<u8>, thumb_size: String },
    Photo { id: i64, access_hash: i64, file_reference: Vec<u8>, thumb_size: String },
    PeerPhoto { peer: InputPeer, photo_id: i64 },
}

/// The id of a message, whatever its kind.
pub open spec fn message_id(m: Message) -> i32 {
    match m {
        Message::Empty { id } => id,
        Message::Message(d) => d.id,
        Message::Service { id, .. } => id,
    }
}

/// A reply with messages: all there are, a page of them, those of a channel, or none
/// that changed.
#[derive(Debug, Clone)]
pub enum MessagesReply {
    Messages(Vec<Message>),
    Slice(Vec<Message>),
    ChannelMessages(Vec<Message>),
    NotModified,
}

/// The messages of a reply.
pub open spec fn reply_messages(reply: MessagesReply) -> Seq<Message> {
    match reply {
        MessagesReply::Messages(m) => m@,
        MessagesReply::Slice(m) => m@,
        MessagesReply::ChannelMessages(m) => m@,
        MessagesReply::NotModified => Seq::empty(),
    }
}

/// Takes the messages out of a reply.
pub fn messages_of(reply: MessagesReply) -> (r: Vec<Message>)
    ensures
        r@ == reply_messages(reply),
{
    match reply {
        MessagesReply::Messages(m) => m,
        MessagesReply::Slice(m) => m,
        MessagesReply::ChannelMessages(m) => m,
        MessagesReply::NotModified => Vec::new(),
    }
}

/// Every reply that carries messages carries all of them, in their order, whatever its
/// form.
pub proof fn lemma_replies_carry_their_messages(messages: Vec<Message>)
    ensures
        reply_messages(MessagesReply::Messages(messages)) == messages@,
        reply_messages(MessagesReply::Slice(messages)) == messages@,
        reply_messages(MessagesReply::ChannelMessages(messages)) == messages@,
        reply_messages(MessagesReply::NotModified) == Seq::<Message>::empty(),
{
}

} // verus!

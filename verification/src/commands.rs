//! The message protocol of the photo manager: typed messages whose payload
//! is a JSON command, image data, or nothing (a heartbeat), and the answers
//! they get.

use crate::json::{
    entry_lookup,    json_tree, parse_json, parsed_json, printed_json, to_json_bytes, tree_member, tree_text, JsonNumber,
    JsonTree, JsonValue,
};
use vstd::prelude::*;
use vstd::utf8::{decode_utf8, encode_utf8, valid_utf8};

verus! {

/// The kind of a protocol message.
#[derive(Clone, Copy, PartialEq, Eq, Structural, Debug)]
pub enum MessageType {
    Command,
    ImageData,
    Heartbeat,
    Response,
    Error,
}

/// A protocol message: its kind and its payload bytes.
#[derive(Debug)]
pub struct Message {
    pub msg_type: MessageType,
    pub payload: Vec<u8>,
}

/// The content of a message.
pub struct MessageFields {
    pub msg_type: MessageType,
    pub payload: Seq<u8>,
}

impl View for Message {
    type V = MessageFields;

    open spec fn view(&self) -> MessageFields {
        MessageFields { msg_type: self.msg_type, payload: self.payload@ }
    }
}

/// How a message kind is written in error texts.
pub open spec fn message_type_name(t: MessageType) -> Seq<char> {
    match t {
        MessageType::Command => "Command"@,
        MessageType::ImageData => "ImageData"@,
        MessageType::Heartbeat => "Heartbeat"@,
        MessageType::Response => "Response"@,
        MessageType::Error => "Error"@,
    }
}

/// The text of the string member `key` of `doc`, if it has one.
pub open spec fn member_text(doc: JsonTree, key: Seq<char>) -> Option<Seq<char>> {
    tree_text(tree_member(doc, key))
}

/// The text of the string member `key` of the `params` member of `doc`.
pub open spec fn param_text(doc: JsonTree, key: Seq<char>) -> Option<Seq<char>> {
    tree_text(tree_member(tree_member(doc, "params"@), key))
}

pub open spec fn text(s: Seq<char>) -> JsonTree {
    JsonTree::Text(s)
}

pub open spec fn count(n: u64) -> JsonTree {
    JsonTree::Number(JsonNumber::PosInt(n))
}

/// The image listing that `listImages` answers with.
pub open spec fn listing_doc() -> JsonTree {
    JsonTree::Object(
        seq![(
            "images"@,
            JsonTree::Array(
                seq![
                    JsonTree::Object(
                        seq![("filename"@, text("img1.jpg"@)), ("size"@, count(1024000))],
                    ),
                    JsonTree::Object(
                        seq![("filename"@, text("img2.jpg"@)), ("size"@, count(2048000))],
                    ),
                ],
            ),
        )],
    )
}

/// The metadata that `getImageMetadata` answers with for `filename`.
pub open spec fn image_metadata_doc(filename: Seq<char>) -> JsonTree {
    JsonTree::Object(
        seq![
            ("filename"@, text(filename)),
            ("width"@, count(1920)),
            ("height"@, count(1080)),
            ("format"@, text("JPEG"@)),
            ("created"@, text("2023-03-15T10:30:00Z"@)),
        ],
    )
}

/// The answer of `prepareImageProcessing` for `filename`.
pub open spec fn ready_doc(filename: Seq<char>) -> JsonTree {
    JsonTree::Object(
        seq![
            ("status"@, text("ready"@)),
            ("message"@, text("Ready to receive image data for "@ + filename)),
        ],
    )
}

/// The metadata reported for image data of `size` bytes.
pub open spec fn data_metadata_doc(size: nat) -> JsonTree {
    JsonTree::Object(
        seq![
            ("width"@, count(1920)),
            ("height"@, count(1080)),
            ("format"@, text("JPEG"@)),
            ("size_bytes"@, count(size as u64)),
        ],
    )
}

/// The answer to image data of `size` bytes.
pub open spec fn image_data_doc(size: nat) -> JsonTree {
    JsonTree::Object(
        seq![
            ("status"@, text("success"@)),
            ("processingTime"@, text("10ms"@)),
            ("metadata"@, data_metadata_doc(size)),
            ("previewAvailable"@, JsonTree::Bool(true)),
        ],
    )
}

/// A response message carrying the printed document `doc`.
pub open spec fn response_with(doc: JsonTree) -> MessageFields {
    MessageFields { msg_type: MessageType::Response, payload: printed_json(doc) }
}

/// The answer to the command document `doc`: a response, or the text of the
/// error.
pub open spec fn command_outcome(doc: JsonTree) -> Result<MessageFields, Seq<char>> {
    match member_text(doc, "command"@) {
        None => Err("Missing 'command' field in command message"@),
        Some(name) => if name == "listImages"@ {
            match param_text(doc, "directory"@) {
                Some(_) => Ok(response_with(listing_doc())),
                None => Err("Missing directory parameter"@),
            }
        } else if name == "getImageMetadata"@ {
            match param_text(doc, "filename"@) {
                Some(filename) => Ok(response_with(image_metadata_doc(filename))),
                None => Err("Missing filename parameter"@),
            }
        } else if name == "prepareImageProcessing"@ {
            match (param_text(doc, "filename"@), param_text(doc, "type"@)) {
                (Some(filename), Some(_)) => Ok(response_with(ready_doc(filename))),
                (None, _) => Err("Missing filename parameter"@),
                (Some(_), None) => Err("Missing type parameter"@),
            }
        } else {
            Err("Unknown command: "@ + name)
        },
    }
}

/// The text of the error that std's `String::from_utf8` reports for bytes
/// that are not UTF-8.
pub uninterp spec fn utf8_error_text(bytes: Seq<u8>) -> Seq<char>;

/// std's `String::from_utf8`: the text the bytes encode when they are
/// UTF-8, or the text of the error.
#[verifier::external_body]
fn string_from_utf8(bytes: Vec<u8>) -> (res: Result<String, String>)
    ensures
        if valid_utf8(bytes@) {
            res matches Ok(s) && s@ == decode_utf8(bytes@)
        } else {
            res matches Err(e) && e@ == utf8_error_text(bytes@)
        },
{
    match String::from_utf8(bytes) {
        Ok(s) => Ok(s),
        Err(e) => Err(e.to_string()),
    }
}

/// The answer to a message: a response, or the text of the error.
pub open spec fn message_outcome(m: MessageFields) -> Result<MessageFields, Seq<char>> {
    match m.msg_type {
        MessageType::Command => if !valid_utf8(m.payload) {
            Err("Invalid UTF-8 in command: "@ + utf8_error_text(m.payload))
        } else {
            match parsed_json(decode_utf8(m.payload)) {
                Err(e) => Err("Invalid JSON in command: "@ + e),
                Ok(doc) => command_outcome(doc),
            }
        },
        MessageType::ImageData => Ok(response_with(image_data_doc(m.payload.len()))),
        MessageType::Heartbeat => Ok(MessageFields { msg_type: MessageType::Heartbeat, payload: Seq::empty() }),
        _ => Err("Unsupported message type: "@ + message_type_name(m.msg_type)),
    }
}

/// `prepareImageProcessing` needs a string `filename` and a string `type`
/// among its parameters, and then answers that it is ready for the file,
/// whatever the text of the type.
pub proof fn law_prepare_ready_for_any_type(doc: JsonTree, filename: Seq<char>, kind: Seq<char>)
    requires
        member_text(doc, "command"@) == Some("prepareImageProcessing"@),
        param_text(doc, "filename"@) == Some(filename),
        param_text(doc, "type"@) == Some(kind),
    ensures
        command_outcome(doc) == Ok::<MessageFields, Seq<char>>(response_with(ready_doc(filename))),
        member_text(ready_doc(filename), "status"@) == Some("ready"@),
        member_text(ready_doc(filename), "message"@) == Some("Ready to receive image data for "@ + filename),
{
    reveal_with_fuel(entry_lookup, 3);
    reveal_strlit("prepareImageProcessing");
    reveal_strlit("listImages");
    reveal_strlit("getImageMetadata");
    reveal_strlit("message");
    reveal_strlit("status");
    assert("prepareImageProcessing"@ != "listImages"@) by {
        assert("prepareImageProcessing"@.len() != "listImages"@.len());
    }
    assert("prepareImageProcessing"@ != "getImageMetadata"@) by {
        assert("prepareImageProcessing"@.len() != "getImageMetadata"@.len());
    }
    assert("message"@ != "status"@) by {
        assert("message"@.len() != "status"@.len());
    }
}

/// The answer to a command document, by its command: a document with no
/// string `command` is refused; `listImages` lists the images when its
/// parameters hold a string `directory` and is refused otherwise;
/// `getImageMetadata` reports the metadata of the string `filename` among
/// its parameters and is refused without one; any other command is refused
/// by name.
pub proof fn law_command_answers(doc: JsonTree)
    ensures
        member_text(doc, "command"@) is None ==> command_outcome(doc) == Err::<MessageFields, Seq<char>>(
            "Missing 'command' field in command message"@,
        ),
        member_text(doc, "command"@) == Some("listImages"@) ==> command_outcome(doc) == if param_text(
            doc,
            "directory"@,
        ) is Some {
            Ok::<MessageFields, Seq<char>>(response_with(listing_doc()))
        } else {
            Err("Missing directory parameter"@)
        },
        member_text(doc, "command"@) == Some("getImageMetadata"@) ==> command_outcome(doc) == match param_text(
            doc,
            "filename"@,
        ) {
            Some(f) => Ok::<MessageFields, Seq<char>>(response_with(image_metadata_doc(f))),
            None => Err("Missing filename parameter"@),
        },
        member_text(doc, "command"@) == Some("prepareImageProcessing"@) && param_text(doc, "filename"@) is None
            ==> command_outcome(doc) == Err::<MessageFields, Seq<char>>("Missing filename parameter"@),
        member_text(doc, "command"@) == Some("prepareImageProcessing"@) && param_text(doc, "filename"@) is Some
            && param_text(doc, "type"@) is None ==> command_outcome(doc) == Err::<MessageFields, Seq<char>>(
            "Missing type parameter"@,
        ),
        forall|name: Seq<char>|
            member_text(doc, "command"@) == Some(name) && name != "listImages"@ && name
                != "getImageMetadata"@ && name != "prepareImageProcessing"@ ==> command_outcome(doc)
                == Err::<MessageFields, Seq<char>>("Unknown command: "@ + name),
{
    reveal_strlit("prepareImageProcessing");
    reveal_strlit("listImages");
    reveal_strlit("getImageMetadata");
    assert("prepareImageProcessing"@.len() != "listImages"@.len());
    assert("prepareImageProcessing"@.len() != "getImageMetadata"@.len());
    assert("listImages"@.len() != "getImageMetadata"@.len());
}

/// A heartbeat is answered with an empty heartbeat, whatever it carried;
/// response and error messages are refused by kind.
pub proof fn law_message_kinds(payload: Seq<u8>)
    ensures
        message_outcome(MessageFields { msg_type: MessageType::Heartbeat, payload })
            == Ok::<MessageFields, Seq<char>>(
            MessageFields { msg_type: MessageType::Heartbeat, payload: Seq::empty() },
        ),
        message_outcome(MessageFields { msg_type: MessageType::Response, payload })
            == Err::<MessageFields, Seq<char>>("Unsupported message type: Response"@),
        message_outcome(MessageFields { msg_type: MessageType::Error, payload })
            == Err::<MessageFields, Seq<char>>("Unsupported message type: Error"@),
{
    reveal_strlit("Unsupported message type: Response");
    reveal_strlit("Unsupported message type: Error");
    reveal_strlit("Unsupported message type: ");
    reveal_strlit("Response");
    reveal_strlit("Error");
    assert("Unsupported message type: "@ + "Response"@ =~= "Unsupported message type: Response"@);
    assert("Unsupported message type: "@ + "Error"@ =~= "Unsupported message type: Error"@);
}

/// Image data is answered with a success response whose metadata reports
/// the payload's exact byte count, however long the payload.
pub proof fn law_image_data_reports_its_size(data: Seq<u8>)
    requires
        data.len() <= u64::MAX,
    ensures
        message_outcome(MessageFields { msg_type: MessageType::ImageData, payload: data })
            == Ok::<MessageFields, Seq<char>>(response_with(image_data_doc(data.len()))),
        member_text(image_data_doc(data.len()), "status"@) == Some("success"@),
        tree_member(image_data_doc(data.len()), "metadata"@) == data_metadata_doc(data.len()),
        tree_member(data_metadata_doc(data.len()), "size_bytes"@) == JsonTree::Number(
            JsonNumber::PosInt(data.len() as u64),
        ),
        data.len() as u64 == data.len(),
        tree_member(data_metadata_doc(data.len()), "width"@) == count(1920),
        tree_member(data_metadata_doc(data.len()), "height"@) == count(1080),
        member_text(data_metadata_doc(data.len()), "format"@) == Some("JPEG"@),
{
    reveal_with_fuel(entry_lookup, 5);
    reveal_strlit("size_bytes");
    reveal_strlit("width");
    reveal_strlit("height");
    reveal_strlit("format");
    reveal_strlit("metadata");
    reveal_strlit("previewAvailable");
    reveal_strlit("status");
    reveal_strlit("processingTime");
    assert("size_bytes"@.len() != "width"@.len());
    assert("width"@.len() != "height"@.len());
    assert("width"@.len() != "format"@.len());
    assert("height"@ != "format"@) by {
        assert("height"@[0] != "format"@[0]);
    }
    assert("size_bytes"@.len() != "height"@.len());
    assert("size_bytes"@.len() != "format"@.len());
    assert("metadata"@.len() != "previewAvailable"@.len());
    assert("status"@.len() != "previewAvailable"@.len());
    assert("status"@.len() != "metadata"@.len());
    assert("status"@.len() != "processingTime"@.len());
}

/// A JSON string holding `s`.
fn text_value(s: &str) -> (v: JsonValue)
    ensures
        v@ == text(s@),
{
    JsonValue::Str(String::from_str(s))
}

/// A JSON number holding `n`.
fn count_value(n: u64) -> (v: JsonValue)
    ensures
        v@ == count(n),
{
    JsonValue::Number(JsonNumber::PosInt(n))
}

/// An object member named `key`.
fn entry(key: &str, value: JsonValue) -> (e: (String, JsonValue))
    ensures
        e.0@ == key@,
        e.1 == value,
{
    (String::from_str(key), value)
}

/// The object whose members are `entries`, in order.
fn object(entries: Vec<(String, JsonValue)>) -> (v: JsonValue)
    ensures
        v@ == JsonTree::Object(Seq::new(entries@.len(), |i: int| (entries@[i].0@, entries@[i].1@))),
{
    let ghost items = entries@;
    let v = JsonValue::Object(entries);
    proof {
        let shown = Seq::new(items.len(), |i: int| (items[i].0@, items[i].1@));
        match v@ {
            JsonTree::Object(s) => {
                assert(s.len() == shown.len());
                assert forall|i: int| 0 <= i < s.len() implies s[i] == shown[i] by {
                    assert(s[i] == (items[i].0@, json_tree(items[i].1)));
                }
                assert(s =~= shown);
            },
            _ => {
                assert(false);
            },
        }
    }
    v
}

/// The metadata of an image held in `data`: fixed dimensions and format,
/// and the number of bytes.
pub fn get_metadata(data: &[u8]) -> (metadata: Result<JsonValue, String>)
    ensures
        metadata matches Ok(doc) && doc@ == data_metadata_doc(data@.len()),
{
    let mut entries = Vec::new();
    entries.push(entry("width", count_value(1920)));
    entries.push(entry("height", count_value(1080)));
    entries.push(entry("format", text_value("JPEG")));
    entries.push(entry("size_bytes", count_value(data.len() as u64)));
    let ghost e = entries@;
    let doc = object(entries);
    assert(Seq::new(e.len(), |i: int| (e[i].0@, e[i].1@)) =~= seq![
        ("width"@, count(1920)),
        ("height"@, count(1080)),
        ("format"@, text("JPEG"@)),
        ("size_bytes"@, count(data@.len() as u64)),
    ]);
    Ok(doc)
}

/// Processes image data; the processed image is the data itself.
pub fn process_image(data: &[u8]) -> (processed: Result<Vec<u8>, String>)
    ensures
        processed matches Ok(bytes) && bytes@ == data@,
{
    Ok(vstd::slice::slice_to_vec(data))
}

/// The text of the string member `key` of `doc`.
fn member_str<'a>(doc: &'a JsonValue, key: &str) -> (found: Option<&'a String>)
    ensures
        match member_text(doc@, key@) {
            Some(t) => found matches Some(s) && s@ == t,
            None => found is None,
        },
{
    match doc.get(key) {
        Some(value) => value.as_str(),
        None => None,
    }
}

/// The text of the string member `key` of the `params` member of `doc`.
fn param_str<'a>(doc: &'a JsonValue, key: &str) -> (found: Option<&'a String>)
    ensures
        match param_text(doc@, key@) {
            Some(t) => found matches Some(s) && s@ == t,
            None => found is None,
        },
{
    match doc.get("params") {
        Some(params) => member_str(params, key),
        None => None,
    }
}

/// `prefix` followed by `rest`.
fn joined(prefix: &str, rest: &str) -> (s: String)
    ensures
        s@ == prefix@ + rest@,
{
    let mut s = String::from_str(prefix);
    s.append(rest);
    s
}

/// A response message carrying the printed `doc`.
fn respond_with(doc: &JsonValue) -> (res: Result<Message, String>)
    ensures
        res matches Ok(m) && m@ == response_with(doc@),
{
    let payload = match to_json_bytes(doc) {
        Ok(bytes) => bytes,
        Err(e) => return Err(e),
    };
    Ok(Message { msg_type: MessageType::Response, payload })
}

/// Carries out the JSON command `command`: lists images, reports an image's
/// metadata, or prepares for receiving image data.
pub fn process_command(command: JsonValue) -> (res: Result<Message, String>)
    ensures
        match command_outcome(command@) {
            Ok(m) => res matches Ok(r) && r@ == m,
            Err(e) => res matches Err(s) && s@ == e,
        },
{
    let cmd_name = match member_str(&command, "command") {
        Some(name) => name,
        None => return Err(String::from_str("Missing 'command' field in command message")),
    };
    if *cmd_name == String::from_str("listImages") {
        if param_str(&command, "directory").is_none() {
            return Err(String::from_str("Missing directory parameter"));
        }
        let mut first = Vec::new();
        first.push(entry("filename", text_value("img1.jpg")));
        first.push(entry("size", count_value(1024000)));
        let ghost e1 = first@;
        let first = object(first);
        let mut second = Vec::new();
        second.push(entry("filename", text_value("img2.jpg")));
        second.push(entry("size", count_value(2048000)));
        let ghost e2 = second@;
        let second = object(second);
        assert(Seq::new(e1.len(), |i: int| (e1[i].0@, e1[i].1@)) =~= seq![
            ("filename"@, text("img1.jpg"@)),
            ("size"@, count(1024000)),
        ]);
        assert(Seq::new(e2.len(), |i: int| (e2[i].0@, e2[i].1@)) =~= seq![
            ("filename"@, text("img2.jpg"@)),
            ("size"@, count(2048000)),
        ]);
        let mut images = Vec::new();
        images.push(first);
        images.push(second);
        let ghost a = images@;
        let images = JsonValue::Array(images);
        proof {
            match images@ {
                JsonTree::Array(s) => {
                    assert(s[0] == json_tree(a[0]));
                    assert(s[1] == json_tree(a[1]));
                    assert(s =~= seq![a[0]@, a[1]@]);
                },
                _ => {
                    assert(false);
                },
            }
        }
        let mut top = Vec::new();
        top.push(entry("images", images));
        let ghost e3 = top@;
        let result = object(top);
        assert(Seq::new(e3.len(), |i: int| (e3[i].0@, e3[i].1@)) =~= seq![("images"@, e3[0].1@)]);
        assert(result@ =~~= listing_doc());
        respond_with(&result)
    } else if *cmd_name == String::from_str("getImageMetadata") {
        let filename = match param_str(&command, "filename") {
            Some(f) => f,
            None => return Err(String::from_str("Missing filename parameter")),
        };
        let mut entries = Vec::new();
        entries.push(entry("filename", text_value(filename.as_str())));
        entries.push(entry("width", count_value(1920)));
        entries.push(entry("height", count_value(1080)));
        entries.push(entry("format", text_value("JPEG")));
        entries.push(entry("created", text_value("2023-03-15T10:30:00Z")));
        let ghost e = entries@;
        let metadata = object(entries);
        assert(Seq::new(e.len(), |i: int| (e[i].0@, e[i].1@)) =~= seq![
            ("filename"@, text(filename@)),
            ("width"@, count(1920)),
            ("height"@, count(1080)),
            ("format"@, text("JPEG"@)),
            ("created"@, text("2023-03-15T10:30:00Z"@)),
        ]);
        respond_with(&metadata)
    } else if *cmd_name == String::from_str("prepareImageProcessing") {
        let filename = match param_str(&command, "filename") {
            Some(f) => f,
            None => return Err(String::from_str("Missing filename parameter")),
        };
        if param_str(&command, "type").is_none() {
            return Err(String::from_str("Missing type parameter"));
        }
        let mut entries = Vec::new();
        entries.push(entry("status", text_value("ready")));
        let message = joined("Ready to receive image data for ", filename.as_str());
        entries.push(entry("message", JsonValue::Str(message)));
        let ghost e = entries@;
        let response = object(entries);
        assert(Seq::new(e.len(), |i: int| (e[i].0@, e[i].1@)) =~= seq![
            ("status"@, text("ready"@)),
            ("message"@, text("Ready to receive image data for "@ + filename@)),
        ]);
        respond_with(&response)
    } else {
        Err(joined("Unknown command: ", cmd_name.as_str()))
    }
}

/// How a message kind is written in error texts.
fn message_type_text(t: MessageType) -> (name: String)
    ensures
        name@ == message_type_name(t),
{
    match t {
        MessageType::Command => String::from_str("Command"),
        MessageType::ImageData => String::from_str("ImageData"),
        MessageType::Heartbeat => String::from_str("Heartbeat"),
        MessageType::Response => String::from_str("Response"),
        MessageType::Error => String::from_str("Error"),
    }
}

/// Answers one message: a command is decoded as UTF-8 JSON and carried out,
/// image data is processed and described, a heartbeat is returned; any other
/// kind of message is refused.
pub fn process_message(message: Message) -> (res: Result<Message, String>)
    ensures
        match message_outcome(message@) {
            Ok(m) => res matches Ok(r) && r@ == m,
            Err(e) => res matches Err(s) && s@ == e,
        },
{
    match message.msg_type {
        MessageType::Command => {
            let command_str = match string_from_utf8(message.payload) {
                Ok(text) => text,
                Err(e) => return Err(joined("Invalid UTF-8 in command: ", e.as_str())),
            };
            let command = match parse_json(command_str.as_str()) {
                Ok(doc) => doc,
                Err(e) => return Err(joined("Invalid JSON in command: ", e.as_str())),
            };
            process_command(command)
        },
        MessageType::ImageData => {
            let _processed_data = match process_image(message.payload.as_slice()) {
                Ok(bytes) => bytes,
                Err(e) => return Err(e),
            };
            let metadata = match get_metadata(message.payload.as_slice()) {
                Ok(doc) => doc,
                Err(e) => return Err(e),
            };
            let mut entries = Vec::new();
            entries.push(entry("status", text_value("success")));
            entries.push(entry("processingTime", text_value("10ms")));
            entries.push(entry("metadata", metadata));
            entries.push(entry("previewAvailable", JsonValue::Bool(true)));
            let ghost e = entries@;
            let response = object(entries);
            assert(Seq::new(e.len(), |i: int| (e[i].0@, e[i].1@)) =~= seq![
                ("status"@, text("success"@)),
                ("processingTime"@, text("10ms"@)),
                ("metadata"@, data_metadata_doc(message@.payload.len())),
                ("previewAvailable"@, JsonTree::Bool(true)),
            ]);
            assert(response@ =~~= image_data_doc(message@.payload.len()));
            respond_with(&response)
        },
        MessageType::Heartbeat => Ok(Message { msg_type: MessageType::Heartbeat, payload: Vec::new() }),
        other => Err(joined("Unsupported message type: ", message_type_text(other).as_str())),
    }
}

/// What reading the next message of a session gave.
#[derive(Debug)]
pub enum ReadOutcome {
    /// A whole message arrived.
    Received(Message),
    /// The bytes did not form a message; the text describes why.
    ProtocolError(String),
    /// Nothing arrived in time.
    TimedOut,
}

/// What the server does after a read.
#[derive(Debug)]
pub enum SessionAction {
    /// Write the message and read on; a failed write ends the session.
    Send(Message),
    /// Write the message, whether or not that succeeds, and end the session.
    SendAndClose(Message),
    /// Read on.
    Continue,
}

/// An error message whose payload is the UTF-8 text `reason`.
pub open spec fn error_message(reason: Seq<char>) -> MessageFields {
    MessageFields { msg_type: MessageType::Error, payload: encode_utf8(reason) }
}

/// An error message carrying `reason` as UTF-8 text.
fn error_reply(reason: &str) -> (m: Message)
    ensures
        m@ == error_message(reason@),
{
    Message {
        msg_type: MessageType::Error,
        payload: vstd::slice::slice_to_vec(reason.as_bytes()),
    }
}

/// Decides what a session does with the outcome of a read: a message is
/// answered with its response or with an error message carrying the error's
/// text; a malformed message is answered with a protocol error and ends the
/// session; after a timeout the session reads on.
pub fn session_step(outcome: ReadOutcome) -> (action: SessionAction)
    ensures
        match outcome {
            ReadOutcome::Received(m) => match message_outcome(m@) {
                Ok(r) => action matches SessionAction::Send(reply) && reply@ == r,
                Err(e) => action matches SessionAction::Send(reply) && reply@ == error_message(e),
            },
            ReadOutcome::ProtocolError(e) => action matches SessionAction::SendAndClose(reply)
                && reply@ == error_message("Protocol error: "@ + e@),
            ReadOutcome::TimedOut => action is Continue,
        },
{
    match outcome {
        ReadOutcome::Received(message) => match process_message(message) {
            Ok(response) => SessionAction::Send(response),
            Err(e) => SessionAction::Send(error_reply(e.as_str())),
        },
        ReadOutcome::ProtocolError(e) => {
            let text = joined("Protocol error: ", e.as_str());
            SessionAction::SendAndClose(error_reply(text.as_str()))
        },
        ReadOutcome::TimedOut => SessionAction::Continue,
    }
}

} // verus!

//! The descriptor and dynamic-message types of `prost_reflect`, and the calls
//! into it that the registry makes. Descriptors and messages are opaque here:
//! the registry carries them through and never looks inside.

use prost::Message;
use prost_reflect::{DescriptorPool, DynamicMessage, FieldDescriptor, Kind, MessageDescriptor};
use vstd::prelude::*;

use crate::schema::DescriptorKind;

verus! {

#[verifier::external_type_specification]
#[verifier::external_body]
pub struct ExDescriptorPool(DescriptorPool);

#[verifier::external_type_specification]
#[verifier::external_body]
pub struct ExMessageDescriptor(MessageDescriptor);

#[verifier::external_type_specification]
#[verifier::external_body]
pub struct ExDynamicMessage(DynamicMessage);

#[verifier::external_type_specification]
#[verifier::external_body]
pub struct ExFieldDescriptor(FieldDescriptor);

/// The fully qualified names of the messages an encoded file descriptor set
/// defines, in the order the decoded pool lists them; none when the bytes are
/// not a valid descriptor set.
pub uninterp spec fn descriptor_set_messages(bytes: Seq<u8>) -> Option<Seq<Seq<char>>>;

/// The names of a list of named descriptors.
pub open spec fn descriptor_names(all: Seq<(String, MessageDescriptor)>) -> Seq<Seq<char>> {
    all.map_values(|p: (String, MessageDescriptor)| p.0@)
}

/// `DescriptorPool::decode`, with the pool's messages (`all_messages`) listed
/// by `full_name`; the error is rendered with its `Display` form. Decoding
/// depends on the bytes alone. The text of the error is not stated.
#[verifier::external_body]
pub(crate) fn decode_descriptor_pool(bytes: &[u8]) -> (r: Result<
    (DescriptorPool, Vec<(String, MessageDescriptor)>),
    String,
>)
    ensures
        match r {
            Ok((_, all)) => descriptor_set_messages(bytes@) == Some(descriptor_names(all@)),
            Err(_) => descriptor_set_messages(bytes@) is None,
        },
{
    match DescriptorPool::decode(bytes) {
        Ok(pool) => {
            let all = pool.all_messages().map(|m| (m.full_name().to_string(), m)).collect();
            Ok((pool, all))
        },
        Err(e) => Err(e.to_string()),
    }
}

/// The fields of a message, in the order the descriptor lists them (by
/// field number).
pub uninterp spec fn descriptor_fields(desc: MessageDescriptor) -> Seq<FieldDescriptor>;

/// `MessageDescriptor::fields`, collected; it depends on the descriptor
/// alone.
#[verifier::external_body]
pub(crate) fn message_fields(desc: &MessageDescriptor) -> (r: Vec<FieldDescriptor>)
    ensures
        r@ == descriptor_fields(*desc),
{
    desc.fields().collect()
}

/// A field's number.
pub uninterp spec fn number_of_field(f: FieldDescriptor) -> u32;

/// `FieldDescriptor::number`.
#[verifier::external_body]
pub(crate) fn field_number(f: &FieldDescriptor) -> (r: u32)
    ensures
        r == number_of_field(*f),
{
    f.number()
}

/// Whether a field is repeated (a list; map fields are not).
pub uninterp spec fn field_is_repeated(f: FieldDescriptor) -> bool;

/// `FieldDescriptor::is_list`.
#[verifier::external_body]
pub(crate) fn field_is_list(f: &FieldDescriptor) -> (r: bool)
    ensures
        r == field_is_repeated(*f),
{
    f.is_list()
}

/// A field's type, enum and message types by fully qualified name.
pub uninterp spec fn kind_of_field(f: FieldDescriptor) -> DescriptorKind;

/// `FieldDescriptor::kind`, variant for variant, enum and message types by
/// `full_name`.
#[verifier::external_body]
pub(crate) fn field_kind(f: &FieldDescriptor) -> (r: DescriptorKind)
    ensures
        r == kind_of_field(*f),
{
    match f.kind() {
        Kind::Double => DescriptorKind::Double, Kind::Float => DescriptorKind::Float,
        Kind::Int32 => DescriptorKind::Int32, Kind::Int64 => DescriptorKind::Int64,
        Kind::Uint32 => DescriptorKind::Uint32, Kind::Uint64 => DescriptorKind::Uint64,
        Kind::Sint32 => DescriptorKind::Sint32, Kind::Sint64 => DescriptorKind::Sint64,
        Kind::Fixed32 => DescriptorKind::Fixed32, Kind::Fixed64 => DescriptorKind::Fixed64,
        Kind::Sfixed32 => DescriptorKind::Sfixed32, Kind::Sfixed64 => DescriptorKind::Sfixed64,
        Kind::Bool => DescriptorKind::Bool, Kind::String => DescriptorKind::String,
        Kind::Bytes => DescriptorKind::Bytes,
        Kind::Enum(e) => DescriptorKind::Enum(e.full_name().to_string()),
        Kind::Message(m) => DescriptorKind::Message(m.full_name().to_string()),
    }
}

/// `MessageDescriptor::clone`: another handle to the same message
/// definition (the same pool and index), so the same value.
#[verifier::external_body]
pub(crate) fn clone_descriptor(desc: &MessageDescriptor) -> (c: MessageDescriptor)
    ensures
        c == *desc,
{
    desc.clone()
}

/// The message protobuf bytes decode to as the described type; none when
/// they do not decode.
pub uninterp spec fn dynamic_decoding(desc: MessageDescriptor, data: Seq<u8>) -> Option<DynamicMessage>;

/// `DynamicMessage::decode`: decodes protobuf bytes as the described
/// message, which depends on the descriptor and the bytes alone; the error is
/// rendered with its `Display` form, whose text is not stated.
#[verifier::external_body]
pub(crate) fn decode_dynamic(desc: MessageDescriptor, data: &[u8]) -> (r: Result<DynamicMessage, String>)
    ensures
        match r {
            Ok(m) => dynamic_decoding(desc, data@) == Some(m),
            Err(_) => dynamic_decoding(desc, data@) is None,
        },
{
    match DynamicMessage::decode(desc, data) {
        Ok(msg) => Ok(msg),
        Err(e) => Err(e.to_string()),
    }
}

/// The protobuf encoding of a dynamic message.
pub uninterp spec fn dynamic_encoding(msg: DynamicMessage) -> Seq<u8>;

/// `prost::Message::encode_to_vec` on a dynamic message: its protobuf
/// encoding, which depends on the message alone.
#[verifier::external_body]
pub(crate) fn encode_dynamic(msg: &DynamicMessage) -> (r: Vec<u8>)
    ensures
        r@ == dynamic_encoding(*msg),
{
    msg.encode_to_vec()
}

/// The empty message of a described type.
pub uninterp spec fn empty_message_of(desc: MessageDescriptor) -> DynamicMessage;

/// `DynamicMessage::new`: the empty message of the described type.
#[verifier::external_body]
pub(crate) fn new_dynamic(desc: MessageDescriptor) -> (r: DynamicMessage)
    ensures
        r == empty_message_of(desc),
{
    DynamicMessage::new(desc)
}

} // verus!

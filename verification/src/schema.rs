//! The schema tree that the walker reads: files, their messages (nested to any
//! depth), the fields of a message, and the options attached to either.

use crate::text::{chars_eq, chars_of};
use vstd::prelude::*;

verus! {

/// Number of the extension field that carries a resource annotation.
pub const RESOURCE_EXTENSION: u32 = 1053;

/// Number of the extension field that carries a resource reference annotation.
pub const RESOURCE_REFERENCE_EXTENSION: u32 = 1055;

/// One option attached to a message or a field.
#[derive(Debug, Clone)]
pub struct SchemaOption {
    /// The number of the extension field that the option sets (0 when the
    /// option is no extension that this crate knows).
    pub number: u32,
    /// The option's aggregate text payload.
    pub aggregate_value: Option<String>,
}

/// One field of a message.
#[derive(Debug, Clone)]
pub struct SchemaField {
    pub name: Option<String>,
    /// Whether the field's type is `string`.
    pub is_string: bool,
    pub options: Vec<SchemaOption>,
}

/// One message, with the messages nested in it.
#[derive(Debug)]
pub struct SchemaMessage {
    pub name: Option<String>,
    pub options: Vec<SchemaOption>,
    pub fields: Vec<SchemaField>,
    pub nested: Vec<SchemaMessage>,
}

/// One input file.
#[derive(Debug)]
pub struct SchemaFile {
    pub name: Option<String>,
    pub messages: Vec<SchemaMessage>,
}

/// An option as mathematics.
pub struct OptionModel {
    pub number: u32,
    pub aggregate_value: Option<Seq<char>>,
}

/// A field as mathematics.
pub struct FieldModel {
    pub name: Option<Seq<char>>,
    pub is_string: bool,
    pub options: Seq<OptionModel>,
}

/// A message as mathematics.
pub struct MessageModel {
    pub name: Option<Seq<char>>,
    pub options: Seq<OptionModel>,
    pub fields: Seq<FieldModel>,
    pub nested: Seq<MessageModel>,
}

/// A file as mathematics.
pub struct FileModel {
    pub name: Option<Seq<char>>,
    pub messages: Seq<MessageModel>,
}

impl View for SchemaOption {
    type V = OptionModel;

    open spec fn view(&self) -> OptionModel {
        OptionModel { number: self.number, aggregate_value: self.aggregate_value.deep_view() }
    }
}

impl DeepView for SchemaOption {
    type V = OptionModel;

    open spec fn deep_view(&self) -> OptionModel {
        self@
    }
}

impl View for SchemaField {
    type V = FieldModel;

    open spec fn view(&self) -> FieldModel {
        FieldModel {
            name: self.name.deep_view(),
            is_string: self.is_string,
            options: self.options.deep_view(),
        }
    }
}

impl DeepView for SchemaField {
    type V = FieldModel;

    open spec fn deep_view(&self) -> FieldModel {
        self@
    }
}

/// The models of the first `k` of `messages`.
pub open spec fn message_models(messages: Seq<SchemaMessage>, k: int) -> Seq<MessageModel>
    decreases messages, k,
{
    if k <= 0 || k > messages.len() {
        Seq::empty()
    } else {
        message_models(messages, k - 1).push(message_model(messages[k - 1]))
    }
}

/// The model of one message.
pub open spec fn message_model(message: SchemaMessage) -> MessageModel
    decreases message, 0int,
{
    MessageModel {
        name: message.name.deep_view(),
        options: message.options.deep_view(),
        fields: message.fields.deep_view(),
        nested: message_models(message.nested@, message.nested@.len() as int),
    }
}

impl View for SchemaMessage {
    type V = MessageModel;

    open spec fn view(&self) -> MessageModel {
        message_model(*self)
    }
}

impl DeepView for SchemaMessage {
    type V = MessageModel;

    open spec fn deep_view(&self) -> MessageModel {
        self@
    }
}

impl View for SchemaFile {
    type V = FileModel;

    open spec fn view(&self) -> FileModel {
        FileModel { name: self.name.deep_view(), messages: self.messages.deep_view() }
    }
}

/// The view of a message, field by field.
pub proof fn lemma_message_view(m: SchemaMessage)
    ensures
        m@.name == m.name.deep_view(),
        m@.options == m.options.deep_view(),
        m@.fields == m.fields.deep_view(),
        m@.nested.len() == m.nested@.len(),
        forall|i: int| 0 <= i < m.nested@.len() ==> #[trigger] m@.nested[i] == m.nested@[i]@,
{
    lemma_message_models(m.nested@, m.nested@.len() as int);
}

/// The models of messages, one by one.
pub proof fn lemma_message_models(messages: Seq<SchemaMessage>, k: int)
    requires
        0 <= k <= messages.len(),
    ensures
        message_models(messages, k).len() == k,
        forall|i: int| 0 <= i < k ==> #[trigger] message_models(messages, k)[i] == messages[i]@,
    decreases k,
{
    if k > 0 {
        lemma_message_models(messages, k - 1);
    }
}

/// The number of the extension field that an option named `name` sets: the
/// resource annotation, the resource reference annotation, or 0 for any other
/// name.
pub open spec fn extension_number(name: Seq<char>) -> u32 {
    if name == "google.api.resource"@ {
        RESOURCE_EXTENSION
    } else if name == "google.api.resource_reference"@ {
        RESOURCE_REFERENCE_EXTENSION
    } else {
        0
    }
}

/// The number of the extension field that an option named `name` sets.
pub fn extension_number_of(name: &str) -> (number: u32)
    ensures
        number == extension_number(name@),
{
    let n = chars_of(name);
    if chars_eq(n.as_slice(), chars_of("google.api.resource").as_slice()) {
        RESOURCE_EXTENSION
    } else if chars_eq(n.as_slice(), chars_of("google.api.resource_reference").as_slice()) {
        RESOURCE_REFERENCE_EXTENSION
    } else {
        0
    }
}

} // verus!

//! Extraction of resource and resource reference annotations from a schema
//! tree: the decoder of an annotation's text payload, and the walker that
//! visits every message and field of a file.

use crate::descriptor::{descriptor_error, lemma_descriptor_regular};
use crate::error::{result_deep_view, result_view, BuildError, BuildErrorModel};
use crate::pattern::{compiled, PatternModel, ResourcePattern};
use crate::schema::{
    lemma_message_view, FieldModel, FileModel, MessageModel, OptionModel, SchemaField, SchemaFile,
    SchemaMessage, SchemaOption, RESOURCE_EXTENSION, RESOURCE_REFERENCE_EXTENSION,
};
use crate::text::{
    chars_of, clone_optional, clone_strings, has_prefix, has_prefix_exec, lemma_chars_deep_view,
    slice_chars, split, split_chars, string_from_chars, trim, trim_chars,
};
use vstd::prelude::*;
use vstd::string::StringExecFns;

verus! {

/// A parsed resource definition from protobuf annotations
#[derive(Debug, Clone)]
pub struct ParsedResource {
    /// The resource type (e.g., "pubsub.googleapis.com/Topic")
    pub resource_type: String,
    /// The patterns for this resource (e.g., "projects/{project}/topics/{topic}")
    pub patterns: Vec<ResourcePattern>,
    /// The singular form (e.g., "topic")
    pub singular: Option<String>,
    /// The plural form (e.g., "topics")
    pub plural: Option<String>,
    /// Whether this resource has history
    pub history: Vec<String>,
    /// The source proto file
    pub source_file: String,
    /// The message name that declares this resource
    pub message_name: String,
}

/// A parsed resource reference from a field annotation
#[derive(Debug, Clone)]
pub struct ParsedResourceReference {
    /// The resource type this field references
    pub resource_type: Option<String>,
    /// The child resource type if this is a parent reference
    pub child_type: Option<String>,
    /// The field name
    pub field_name: String,
    /// The message containing this field
    pub containing_message: String,
    /// The source proto file
    pub source_file: String,
}

/// Collection of parsed resources and references from a file
#[derive(Debug)]
pub struct ParsedFileResources {
    pub resources: Vec<ParsedResource>,
    pub references: Vec<ParsedResourceReference>,
}

/// Parser for extracting resource information from protobuf descriptors
pub struct ResourceParser {}

/// A parsed resource as mathematics.
pub struct ParsedResourceModel {
    pub resource_type: Seq<char>,
    pub patterns: Seq<PatternModel>,
    pub singular: Option<Seq<char>>,
    pub plural: Option<Seq<char>>,
    pub history: Seq<Seq<char>>,
    pub source_file: Seq<char>,
    pub message_name: Seq<char>,
}

/// A parsed reference as mathematics.
pub struct ParsedReferenceModel {
    pub resource_type: Option<Seq<char>>,
    pub child_type: Option<Seq<char>>,
    pub field_name: Seq<char>,
    pub containing_message: Seq<char>,
    pub source_file: Seq<char>,
}

/// What a walk has found, as mathematics.
pub struct ParsedFileModel {
    pub resources: Seq<ParsedResourceModel>,
    pub references: Seq<ParsedReferenceModel>,
}

impl View for ParsedResource {
    type V = ParsedResourceModel;

    open spec fn view(&self) -> ParsedResourceModel {
        ParsedResourceModel {
            resource_type: self.resource_type@,
            patterns: self.patterns.deep_view(),
            singular: self.singular.deep_view(),
            plural: self.plural.deep_view(),
            history: self.history.deep_view(),
            source_file: self.source_file@,
            message_name: self.message_name@,
        }
    }
}

impl DeepView for ParsedResource {
    type V = ParsedResourceModel;

    open spec fn deep_view(&self) -> ParsedResourceModel {
        self@
    }
}

impl View for ParsedResourceReference {
    type V = ParsedReferenceModel;

    open spec fn view(&self) -> ParsedReferenceModel {
        ParsedReferenceModel {
            resource_type: self.resource_type.deep_view(),
            child_type: self.child_type.deep_view(),
            field_name: self.field_name@,
            containing_message: self.containing_message@,
            source_file: self.source_file@,
        }
    }
}

impl DeepView for ParsedResourceReference {
    type V = ParsedReferenceModel;

    open spec fn deep_view(&self) -> ParsedReferenceModel {
        self@
    }
}

impl View for ParsedFileResources {
    type V = ParsedFileModel;

    open spec fn view(&self) -> ParsedFileModel {
        ParsedFileModel {
            resources: self.resources.deep_view(),
            references: self.references.deep_view(),
        }
    }
}

/// `v` stands between two quote characters `q`.
pub open spec fn is_quoted(v: Seq<char>, q: char) -> bool {
    v.len() >= 2 && v[0] == q && v[v.len() - 1] == q
}

/// `v` without the pair of double or single quotes around it, if it has one.
pub open spec fn unquote(v: Seq<char>) -> Seq<char> {
    if is_quoted(v, '"') || is_quoted(v, '\'') {
        v.subrange(1, v.len() - 1)
    } else {
        v
    }
}

/// The value that `line` gives to `key` (the key's name with its colon), if
/// the line starts with that key: what follows the key, trimmed and unquoted.
pub open spec fn entry_value(line: Seq<char>, key: Seq<char>) -> Option<Seq<char>> {
    if has_prefix(line, key) {
        Some(unquote(trim(line.subrange(key.len() as int, line.len() as int))))
    } else {
        None
    }
}

/// The values that the first `k` lines give to `key`, in order.
pub open spec fn values_upto(lines: Seq<Seq<char>>, key: Seq<char>, k: int) -> Seq<Seq<char>>
    decreases k,
{
    if k <= 0 || k > lines.len() {
        Seq::empty()
    } else {
        match entry_value(trim(lines[k - 1]), key) {
            Some(v) => values_upto(lines, key, k - 1).push(v),
            None => values_upto(lines, key, k - 1),
        }
    }
}

/// The values that the lines of `text` give to `key`, in order.
pub open spec fn key_values(text: Seq<char>, key: Seq<char>) -> Seq<Seq<char>> {
    let lines = split(text, '\n');
    values_upto(lines, key, lines.len() as int)
}

/// The last of the values, if there is any: a later line overrides an
/// earlier one.
pub open spec fn last_value(values: Seq<Seq<char>>) -> Option<Seq<char>> {
    if values.len() == 0 {
        None
    } else {
        Some(values.last())
    }
}

/// Each pattern string compiled.
pub open spec fn compile_all(patterns: Seq<Seq<char>>) -> Seq<PatternModel> {
    Seq::new(patterns.len(), |i: int| compiled(patterns[i]))
}

/// The descriptor that the lines of a text payload spell, where there is a
/// `type` line: of several `type`, `singular` or `plural` lines the last one
/// counts; `pattern` and `history` lines accumulate in order; any other line
/// is ignored.
pub open spec fn spelled_resource(
    text: Seq<char>,
    file_name: Seq<char>,
    message_name: Seq<char>,
) -> ParsedResourceModel {
    ParsedResourceModel {
        resource_type: key_values(text, "type:"@).last(),
        patterns: compile_all(key_values(text, "pattern:"@)),
        singular: last_value(key_values(text, "singular:"@)),
        plural: last_value(key_values(text, "plural:"@)),
        history: key_values(text, "history:"@),
        source_file: file_name,
        message_name,
    }
}

/// What the text payload of a resource annotation declares.
///
/// `type` is required and must not be empty, and so is at least one
/// `pattern`. What the lines spell is then held to the invariant of a
/// descriptor: every pattern has a variable and names none twice, and no
/// pattern comes twice.
pub open spec fn decode_resource(
    text: Seq<char>,
    file_name: Seq<char>,
    message_name: Seq<char>,
) -> Result<ParsedResourceModel, BuildErrorModel> {
    if key_values(text, "type:"@).len() == 0 {
        Err(BuildErrorModel::MissingRequiredField { field: "type"@, message_name })
    } else {
        let spelled = spelled_resource(text, file_name, message_name);
        match descriptor_error(spelled) {
            Some(e) => Err(e),
            None => Ok(spelled),
        }
    }
}

/// What the text payload of a resource reference annotation declares: nothing
/// when it names neither a type nor a child type.
pub open spec fn decode_reference(
    text: Seq<char>,
    field_name: Seq<char>,
    message_name: Seq<char>,
    file_name: Seq<char>,
) -> Option<ParsedReferenceModel> {
    let resource_type = last_value(key_values(text, "type:"@));
    let child_type = last_value(key_values(text, "child_type:"@));
    if resource_type is None && child_type is None {
        None
    } else {
        Some(
            ParsedReferenceModel {
                resource_type,
                child_type,
                field_name,
                containing_message: message_name,
                source_file: file_name,
            },
        )
    }
}

/// What one option of a message declares: a resource, where the option is the
/// resource extension and carries a text payload.
pub open spec fn resource_option(
    option: OptionModel,
    file_name: Seq<char>,
    message_name: Seq<char>,
) -> Result<Option<ParsedResourceModel>, BuildErrorModel> {
    if option.number == RESOURCE_EXTENSION {
        match option.aggregate_value {
            Some(text) => match decode_resource(text, file_name, message_name) {
                Ok(r) => Ok(Some(r)),
                Err(e) => Err(e),
            },
            None => Ok(None),
        }
    } else {
        Ok(None)
    }
}

/// What the first `k` options of a message declare: the outcome of the first
/// option among them that declares a resource or is in error.
pub open spec fn resource_annotation_upto(
    options: Seq<OptionModel>,
    file_name: Seq<char>,
    message_name: Seq<char>,
    k: int,
) -> Result<Option<ParsedResourceModel>, BuildErrorModel>
    decreases k,
{
    if k <= 0 || k > options.len() {
        Ok(None)
    } else {
        match resource_annotation_upto(options, file_name, message_name, k - 1) {
            Ok(None) => resource_option(options[k - 1], file_name, message_name),
            other => other,
        }
    }
}

/// The resource that the options of a message declare, if any.
pub open spec fn resource_annotation(
    options: Seq<OptionModel>,
    file_name: Seq<char>,
    message_name: Seq<char>,
) -> Result<Option<ParsedResourceModel>, BuildErrorModel> {
    resource_annotation_upto(options, file_name, message_name, options.len() as int)
}

/// What one option of a field declares: a reference, where the option is the
/// resource reference extension and carries a text payload that names a type.
pub open spec fn reference_option(
    option: OptionModel,
    field_name: Seq<char>,
    message_name: Seq<char>,
    file_name: Seq<char>,
) -> Option<ParsedReferenceModel> {
    if option.number == RESOURCE_REFERENCE_EXTENSION {
        match option.aggregate_value {
            Some(text) => decode_reference(text, field_name, message_name, file_name),
            None => None,
        }
    } else {
        None
    }
}

/// The reference that the first of the first `k` options to declare one
/// declares.
pub open spec fn reference_annotation_upto(
    options: Seq<OptionModel>,
    field_name: Seq<char>,
    message_name: Seq<char>,
    file_name: Seq<char>,
    k: int,
) -> Option<ParsedReferenceModel>
    decreases k,
{
    if k <= 0 || k > options.len() {
        None
    } else {
        match reference_annotation_upto(options, field_name, message_name, file_name, k - 1) {
            None => reference_option(options[k - 1], field_name, message_name, file_name),
            found => found,
        }
    }
}

/// The text of an optional name: empty when the name is absent.
pub open spec fn name_text(name: Option<Seq<char>>) -> Seq<char> {
    match name {
        Some(n) => n,
        None => Seq::empty(),
    }
}

/// The reference that a field declares, if any. Only fields of type `string`
/// declare references.
pub open spec fn reference_annotation(
    field: FieldModel,
    file_name: Seq<char>,
    message_name: Seq<char>,
) -> Option<ParsedReferenceModel> {
    if field.is_string {
        reference_annotation_upto(
            field.options,
            name_text(field.name),
            message_name,
            file_name,
            field.options.len() as int,
        )
    } else {
        None
    }
}

/// The references that the first `k` fields of a message declare, in order.
pub open spec fn field_references_upto(
    fields: Seq<FieldModel>,
    file_name: Seq<char>,
    message_name: Seq<char>,
    k: int,
) -> Seq<ParsedReferenceModel>
    decreases k,
{
    if k <= 0 || k > fields.len() {
        Seq::empty()
    } else {
        let before = field_references_upto(fields, file_name, message_name, k - 1);
        match reference_annotation(fields[k - 1], file_name, message_name) {
            Some(r) => before.push(r),
            None => before,
        }
    }
}

/// Where a walk stands: what it has found, and the error that stopped it.
pub struct Walk {
    pub found: ParsedFileModel,
    pub error: Option<BuildErrorModel>,
}

/// The walk of one message, started with `acc` already found: the message's
/// own resource first, then the references of its fields, then the messages
/// nested in it, each named by the path of message names that leads to it.
/// The first error stops the walk.
pub open spec fn walk_message(
    message: MessageModel,
    file_name: Seq<char>,
    parent_prefix: Seq<char>,
    acc: ParsedFileModel,
) -> Walk
    decreases message, 0int,
{
    let name = parent_prefix + name_text(message.name);
    match resource_annotation(message.options, file_name, name) {
        Err(e) => Walk { found: acc, error: Some(e) },
        Ok(declared) => {
            let resources = match declared {
                Some(r) => acc.resources.push(r),
                None => acc.resources,
            };
            let references = acc.references + field_references_upto(
                message.fields,
                file_name,
                name,
                message.fields.len() as int,
            );
            walk_messages(
                message.nested,
                file_name,
                name + "."@,
                ParsedFileModel { resources, references },
                message.nested.len() as int,
            )
        },
    }
}

/// The walk of the first `k` of `messages`, in order, started with `acc`.
pub open spec fn walk_messages(
    messages: Seq<MessageModel>,
    file_name: Seq<char>,
    parent_prefix: Seq<char>,
    acc: ParsedFileModel,
    k: int,
) -> Walk
    decreases messages, k,
{
    if k <= 0 || k > messages.len() {
        Walk { found: acc, error: None }
    } else {
        let before = walk_messages(messages, file_name, parent_prefix, acc, k - 1);
        if before.error is Some {
            before
        } else {
            walk_message(messages[k - 1], file_name, parent_prefix, before.found)
        }
    }
}

/// What a file declares: the resources and references of all its messages, in
/// the order of the walk, or the first error.
pub open spec fn walk_file(file: FileModel) -> Result<ParsedFileModel, BuildErrorModel> {
    let walk = walk_messages(
        file.messages,
        name_text(file.name),
        Seq::empty(),
        ParsedFileModel { resources: Seq::empty(), references: Seq::empty() },
        file.messages.len() as int,
    );
    match walk.error {
        Some(e) => Err(e),
        None => Ok(walk.found),
    }
}

/// Every resource is regular.
pub open spec fn all_regular(resources: Seq<ParsedResourceModel>) -> bool {
    forall|i: int| 0 <= i < resources.len() ==> (#[trigger] resources[i]).regular()
}

/// A descriptor that the decoder gives is regular: its type is not empty, no
/// two of its patterns have the same components, and every pattern has a
/// variable and names none twice.
pub proof fn lemma_decoded_is_regular(
    text: Seq<char>,
    file_name: Seq<char>,
    message_name: Seq<char>,
)
    requires
        decode_resource(text, file_name, message_name) is Ok,
    ensures
        decode_resource(text, file_name, message_name)->Ok_0.regular(),
{
    lemma_descriptor_regular(spelled_resource(text, file_name, message_name));
}

/// A resource that the options of a message declare is regular.
pub proof fn lemma_annotation_is_regular(
    options: Seq<OptionModel>,
    file_name: Seq<char>,
    message_name: Seq<char>,
    k: int,
)
    requires
        0 <= k <= options.len(),
    ensures
        resource_annotation_upto(options, file_name, message_name, k) matches Ok(Some(r))
            ==> r.regular(),
    decreases k,
{
    if k > 0 {
        lemma_annotation_is_regular(options, file_name, message_name, k - 1);
        let option = options[k - 1];
        if option.number == RESOURCE_EXTENSION && option.aggregate_value is Some {
            let text = option.aggregate_value->Some_0;
            if decode_resource(text, file_name, message_name) is Ok {
                lemma_decoded_is_regular(text, file_name, message_name);
            }
        }
    }
}

/// The walk of a message adds regular resources only.
pub proof fn lemma_walk_message_regular(
    message: MessageModel,
    file_name: Seq<char>,
    parent_prefix: Seq<char>,
    acc: ParsedFileModel,
)
    requires
        all_regular(acc.resources),
    ensures
        all_regular(walk_message(message, file_name, parent_prefix, acc).found.resources),
    decreases message, 0int,
{
    let name = parent_prefix + name_text(message.name);
    lemma_annotation_is_regular(message.options, file_name, name, message.options.len() as int);
    match resource_annotation(message.options, file_name, name) {
        Err(e) => {},
        Ok(declared) => {
            let resources = match declared {
                Some(r) => acc.resources.push(r),
                None => acc.resources,
            };
            let references = acc.references + field_references_upto(
                message.fields,
                file_name,
                name,
                message.fields.len() as int,
            );
            assert(all_regular(resources)) by {
                assert forall|i: int| 0 <= i < resources.len() implies (
                #[trigger] resources[i]).regular() by {
                    if i < acc.resources.len() {
                        assert(resources[i] == acc.resources[i]);
                    }
                }
            }
            lemma_walk_messages_regular(
                message.nested,
                file_name,
                name + "."@,
                ParsedFileModel { resources, references },
                message.nested.len() as int,
            );
        },
    }
}

/// The walk of messages adds regular resources only.
pub proof fn lemma_walk_messages_regular(
    messages: Seq<MessageModel>,
    file_name: Seq<char>,
    parent_prefix: Seq<char>,
    acc: ParsedFileModel,
    k: int,
)
    requires
        all_regular(acc.resources),
    ensures
        all_regular(walk_messages(messages, file_name, parent_prefix, acc, k).found.resources),
    decreases messages, k,
{
    if 0 < k <= messages.len() {
        lemma_walk_messages_regular(messages, file_name, parent_prefix, acc, k - 1);
        let before = walk_messages(messages, file_name, parent_prefix, acc, k - 1);
        if before.error is None {
            lemma_walk_message_regular(messages[k - 1], file_name, parent_prefix, before.found);
        }
    }
}

/// Every resource that the walk of a file finds is regular.
pub proof fn lemma_walk_file_regular(file: FileModel)
    requires
        walk_file(file) is Ok,
    ensures
        all_regular(walk_file(file)->Ok_0.resources),
{
    lemma_walk_messages_regular(
        file.messages,
        name_text(file.name),
        Seq::empty(),
        ParsedFileModel { resources: Seq::empty(), references: Seq::empty() },
        file.messages.len() as int,
    );
}

/// Once an option has declared a resource or is in error, later options
/// change nothing.
pub proof fn lemma_resource_annotation_stays(
    options: Seq<OptionModel>,
    file_name: Seq<char>,
    message_name: Seq<char>,
    k: int,
    n: int,
)
    requires
        0 <= k <= n <= options.len(),
        resource_annotation_upto(options, file_name, message_name, k) != Ok::<
            Option<ParsedResourceModel>,
            BuildErrorModel,
        >(None),
    ensures
        resource_annotation_upto(options, file_name, message_name, n) == resource_annotation_upto(
            options,
            file_name,
            message_name,
            k,
        ),
    decreases n - k,
{
    if k < n {
        lemma_resource_annotation_stays(options, file_name, message_name, k, n - 1);
    }
}

/// Once an option has declared a reference, later options change nothing.
pub proof fn lemma_reference_annotation_stays(
    options: Seq<OptionModel>,
    field_name: Seq<char>,
    message_name: Seq<char>,
    file_name: Seq<char>,
    k: int,
    n: int,
)
    requires
        0 <= k <= n <= options.len(),
        reference_annotation_upto(options, field_name, message_name, file_name, k) is Some,
    ensures
        reference_annotation_upto(options, field_name, message_name, file_name, n)
            == reference_annotation_upto(options, field_name, message_name, file_name, k),
    decreases n - k,
{
    if k < n {
        lemma_reference_annotation_stays(options, field_name, message_name, file_name, k, n - 1);
    }
}

/// Once a walk has stopped on an error, later messages change nothing.
pub proof fn lemma_walk_error_stays(
    messages: Seq<MessageModel>,
    file_name: Seq<char>,
    parent_prefix: Seq<char>,
    acc: ParsedFileModel,
    k: int,
    n: int,
)
    requires
        0 <= k <= n <= messages.len(),
        walk_messages(messages, file_name, parent_prefix, acc, k).error is Some,
    ensures
        walk_messages(messages, file_name, parent_prefix, acc, n) == walk_messages(
            messages,
            file_name,
            parent_prefix,
            acc,
            k,
        ),
    decreases n - k,
{
    if k < n {
        lemma_walk_error_stays(messages, file_name, parent_prefix, acc, k, n - 1);
    }
}

/// The text of an optional name.
pub fn name_of(name: &Option<String>) -> (out: String)
    ensures
        out@ == name_text(name.deep_view()),
{
    match name {
        Some(n) => n.clone(),
        None => String::new(),
    }
}

/// The value that `line` gives to `key`, if the line starts with that key.
pub fn entry_value_exec(line: &[char], key: &[char]) -> (out: Option<String>)
    ensures
        out.deep_view() == entry_value(line@, key@),
{
    if has_prefix_exec(line, key) {
        let rest = slice_chars(line, key.len(), line.len());
        let value = trim_chars(rest.as_slice());
        let n = value.len();
        if n >= 2 && ((value[0] == '"' && value[n - 1] == '"') || (value[0] == '\'' && value[n
            - 1] == '\'')) {
            Some(string_of_range(&value, 1, n - 1))
        } else {
            Some(string_from_chars(value.as_slice()))
        }
    } else {
        None
    }
}

/// The string made of the characters `v[from..to]`.
fn string_of_range(v: &Vec<char>, from: usize, to: usize) -> (out: String)
    requires
        from <= to <= v@.len(),
    ensures
        out@ == v@.subrange(from as int, to as int),
{
    let piece = slice_chars(v.as_slice(), from, to);
    string_from_chars(piece.as_slice())
}

/// The values that the lines give to `key`, in order.
pub fn key_values_exec(lines: &Vec<Vec<char>>, key: &str) -> (out: Vec<String>)
    ensures
        out.deep_view() == values_upto(lines.deep_view(), key@, lines@.len() as int),
{
    let key_chars = chars_of(key);
    let mut out: Vec<String> = Vec::new();
    let mut k: usize = 0;
    while k < lines.len()
        invariant
            k <= lines@.len(),
            key_chars@ == key@,
            out.deep_view() == values_upto(lines.deep_view(), key@, k as int),
        decreases lines@.len() - k,
    {
        let line = trim_chars(lines[k].as_slice());
        proof {
            lemma_chars_deep_view(lines@[k as int]);
        }
        let ghost before = out.deep_view();
        match entry_value_exec(line.as_slice(), key_chars.as_slice()) {
            Some(v) => {
                let ghost value = v@;
                out.push(v);
                proof {
                    assert(out.deep_view() =~= before.push(value));
                }
            },
            None => {},
        }
        k += 1;
    }
    out
}

/// The last of the values, if there is any.
pub fn last_value_exec(values: &Vec<String>) -> (out: Option<String>)
    ensures
        out.deep_view() == last_value(values.deep_view()),
{
    if values.len() == 0 {
        None
    } else {
        Some(values[values.len() - 1].clone())
    }
}

impl ParsedResource {
    /// A copy of this resource.
    pub fn duplicate(&self) -> (out: Self)
        ensures
            out@ == self@,
    {
        let mut patterns: Vec<ResourcePattern> = Vec::new();
        let mut k: usize = 0;
        while k < self.patterns.len()
            invariant
                k <= self.patterns@.len(),
                patterns@.len() == k,
                forall|j: int| 0 <= j < k ==> (#[trigger] patterns@[j])@ == self.patterns@[j]@,
            decreases self.patterns@.len() - k,
        {
            patterns.push(self.patterns[k].duplicate());
            k += 1;
        }
        proof {
            assert(patterns.deep_view() =~= self.patterns.deep_view());
        }
        ParsedResource {
            resource_type: self.resource_type.clone(),
            patterns,
            singular: clone_optional(&self.singular),
            plural: clone_optional(&self.plural),
            history: clone_strings(&self.history),
            source_file: self.source_file.clone(),
            message_name: self.message_name.clone(),
        }
    }
}

impl Default for ParsedFileResources {
    fn default() -> (out: Self)
        ensures
            out@ == (ParsedFileModel { resources: Seq::empty(), references: Seq::empty() }),
    {
        let out = Self { resources: Vec::new(), references: Vec::new() };
        proof {
            assert(out.resources.deep_view() =~= Seq::empty());
            assert(out.references.deep_view() =~= Seq::empty());
        }
        out
    }
}

impl DeepView for ParsedFileResources {
    type V = ParsedFileModel;

    open spec fn deep_view(&self) -> ParsedFileModel {
        self@
    }
}

impl ResourceParser {
    /// A parser. It holds no state.
    pub fn new() -> Self {
        Self {  }
    }

    /// Parse a file descriptor for resource definitions and references.
    /// Every resource that is given back is regular.
    pub fn parse_file(&self, file: &SchemaFile) -> (r: Result<ParsedFileResources, BuildError>)
        ensures
            result_view(r) == walk_file(file@),
            r matches Ok(found) ==> all_regular(found@.resources),
    {
        let mut result = ParsedFileResources::default();
        let file_name = name_of(&file.name);
        let top = String::new();
        let ghost start = result@;
        let mut k: usize = 0;
        while k < file.messages.len()
            invariant
                k <= file.messages@.len(),
                top@ == Seq::<char>::empty(),
                start == (ParsedFileModel { resources: Seq::empty(), references: Seq::empty() }),
                file_name@ == name_text(file@.name),
                walk_messages(file@.messages, file_name@, top@, start, k as int) == (Walk {
                    found: result@,
                    error: None,
                }),
            decreases file.messages@.len() - k,
        {
            let ghost before = result@;
            let step = self.parse_message(
                &file.messages[k],
                file_name.as_str(),
                top.as_str(),
                &mut result,
            );
            proof {
                assert(file@.messages[k as int] == file.messages@[k as int]@);
                assert(walk_messages(file@.messages, file_name@, top@, start, k + 1)
                    == walk_message(file.messages@[k as int]@, file_name@, top@, before));
            }
            match step {
                Ok(()) => {},
                Err(e) => {
                    proof {
                        lemma_walk_error_stays(
                            file@.messages,
                            file_name@,
                            top@,
                            start,
                            k + 1,
                            file.messages@.len() as int,
                        );
                    }
                    return Err(e);
                },
            }
            k += 1;
        }
        proof {
            lemma_walk_file_regular(file@);
        }
        Ok(result)
    }

    /// Walk one message: its own annotation, its fields, the messages nested
    /// in it.
    pub fn parse_message(
        &self,
        message: &SchemaMessage,
        file_name: &str,
        parent_prefix: &str,
        result: &mut ParsedFileResources,
    ) -> (r: Result<(), BuildError>)
        ensures
            final(result)@ == walk_message(
                message@,
                file_name@,
                parent_prefix@,
                old(result)@,
            ).found,
            match r {
                Ok(_) => walk_message(
                    message@,
                    file_name@,
                    parent_prefix@,
                    old(result)@,
                ).error is None,
                Err(e) => walk_message(message@, file_name@, parent_prefix@, old(result)@).error
                    == Some(e@),
            },
        decreases message,
    {
        let mut message_name = parent_prefix.to_owned();
        message_name.append(name_of(&message.name).as_str());
        let ghost name = parent_prefix@ + name_text(message@.name);
        let ghost acc = result@;
        proof {
            lemma_message_view(*message);
        }

        // Check for the resource annotation
        match self.parse_resource_annotation(message, file_name, message_name.as_str()) {
            Err(e) => {
                return Err(e);
            },
            Ok(Some(resource)) => {
                let ghost declared = resource@;
                result.resources.push(resource);
                proof {
                    assert(result.resources.deep_view() =~= acc.resources.push(declared));
                }
            },
            Ok(None) => {},
        }

        // Parse fields for resource references
        let ghost resources = result@.resources;
        let mut k: usize = 0;
        while k < message.fields.len()
            invariant
                k <= message.fields@.len(),
                message_name@ == name,
                result@.resources == resources,
                result@.references == acc.references + field_references_upto(
                    message@.fields,
                    file_name@,
                    name,
                    k as int,
                ),
            decreases message.fields@.len() - k,
        {
            let ghost before = result@.references;
            match self.parse_resource_reference_annotation(
                &message.fields[k],
                file_name,
                message_name.as_str(),
            ) {
                Ok(Some(reference)) => {
                    let ghost declared = reference@;
                    result.references.push(reference);
                    proof {
                        assert(result.references.deep_view() =~= before.push(declared));
                        assert(before.push(declared) =~= acc.references + field_references_upto(
                            message@.fields,
                            file_name@,
                            name,
                            k as int,
                        ).push(declared));
                    }
                },
                Ok(None) => {},
                Err(e) => {
                    return Err(e);
                },
            }
            k += 1;
        }

        // Parse nested messages
        let mut prefix = message_name.clone();
        prefix.append(".");
        let ghost start = result@;
        proof {
            let outcome = resource_annotation(message@.options, file_name@, name);
            assert(outcome is Ok);
            assert(start.resources == match outcome->Ok_0 {
                Some(r) => acc.resources.push(r),
                None => acc.resources,
            });
            assert(start.references == acc.references + field_references_upto(
                message@.fields,
                file_name@,
                name,
                message@.fields.len() as int,
            ));
            let resources = match outcome->Ok_0 {
                Some(r) => acc.resources.push(r),
                None => acc.resources,
            };
            let references = acc.references + field_references_upto(
                message@.fields,
                file_name@,
                name,
                message@.fields.len() as int,
            );
            assert(start == ParsedFileModel { resources, references });
            assert(prefix@ == name + "."@);
            assert(walk_message(message@, file_name@, parent_prefix@, acc) == walk_messages(
                message@.nested,
                file_name@,
                name + "."@,
                ParsedFileModel { resources, references },
                message@.nested.len() as int,
            ));
        }
        let mut j: usize = 0;
        while j < message.nested.len()
            invariant
                j <= message.nested@.len(),
                message@.nested.len() == message.nested@.len(),
                acc == old(result)@,
                prefix@ == name + "."@,
                walk_message(message@, file_name@, parent_prefix@, acc) == walk_messages(
                    message@.nested,
                    file_name@,
                    prefix@,
                    start,
                    message@.nested.len() as int,
                ),
                walk_messages(message@.nested, file_name@, prefix@, start, j as int) == (Walk {
                    found: result@,
                    error: None,
                }),
            decreases message.nested@.len() - j,
        {
            let ghost before = result@;
            let step = self.parse_message(&message.nested[j], file_name, prefix.as_str(), result);
            proof {
                lemma_message_view(*message);
                assert(walk_messages(message@.nested, file_name@, prefix@, start, j + 1)
                    == walk_message(message.nested@[j as int]@, file_name@, prefix@, before));
            }
            match step {
                Ok(()) => {},
                Err(e) => {
                    proof {
                        lemma_walk_error_stays(
                            message@.nested,
                            file_name@,
                            prefix@,
                            start,
                            j + 1,
                            message.nested@.len() as int,
                        );
                    }
                    return Err(e);
                },
            }
            j += 1;
        }

        Ok(())
    }

    /// The resource that the options of a message declare, if any.
    pub fn parse_resource_annotation(
        &self,
        message: &SchemaMessage,
        file_name: &str,
        message_name: &str,
    ) -> (r: Result<Option<ParsedResource>, BuildError>)
        ensures
            result_deep_view(r) == resource_annotation(
                message@.options,
                file_name@,
                message_name@,
            ),
    {
        let mut k: usize = 0;
        while k < message.options.len()
            invariant
                k <= message.options@.len(),
                resource_annotation_upto(message@.options, file_name@, message_name@, k as int)
                    == Ok::<Option<ParsedResourceModel>, BuildErrorModel>(None),
            decreases message.options@.len() - k,
        {
            let found = self.parse_google_api_resource_option(
                &message.options[k],
                file_name,
                message_name,
            );
            proof {
                assert(result_deep_view(found) == resource_annotation_upto(
                    message@.options,
                    file_name@,
                    message_name@,
                    k + 1,
                ));
            }
            match found {
                Ok(None) => {},
                other => {
                    proof {
                        lemma_resource_annotation_stays(
                            message@.options,
                            file_name@,
                            message_name@,
                            k + 1,
                            message.options@.len() as int,
                        );
                    }
                    return other;
                },
            }
            k += 1;
        }
        Ok(None)
    }

    /// What one option of a message declares.
    pub fn parse_google_api_resource_option(
        &self,
        option: &SchemaOption,
        file_name: &str,
        message_name: &str,
    ) -> (r: Result<Option<ParsedResource>, BuildError>)
        ensures
            result_deep_view(r) == resource_option(option@, file_name@, message_name@),
    {
        // The annotation is known by the number of its extension field
        if option.number != RESOURCE_EXTENSION {
            return Ok(None);
        }
        match &option.aggregate_value {
            Some(aggregate_value) => self.parse_resource_descriptor_from_aggregate(
                aggregate_value.as_str(),
                file_name,
                message_name,
            ),
            None => Ok(None),
        }
    }

    /// Decode the text payload of a resource annotation. A descriptor that
    /// is given back is regular.
    pub fn parse_resource_descriptor_from_aggregate(
        &self,
        aggregate_value: &str,
        file_name: &str,
        message_name: &str,
    ) -> (r: Result<Option<ParsedResource>, BuildError>)
        ensures
            match decode_resource(aggregate_value@, file_name@, message_name@) {
                Ok(declared) => result_deep_view(r) == Ok::<
                    Option<ParsedResourceModel>,
                    BuildErrorModel,
                >(Some(declared)),
                Err(e) => result_deep_view(r) == Err::<
                    Option<ParsedResourceModel>,
                    BuildErrorModel,
                >(e),
            },
            r matches Ok(Some(declared)) ==> declared@.regular(),
    {
        let text = chars_of(aggregate_value);
        let lines = split_chars(text.as_slice(), '\n');
        let types = key_values_exec(&lines, "type:");
        let patterns = key_values_exec(&lines, "pattern:");
        let singular = last_value_exec(&key_values_exec(&lines, "singular:"));
        let plural = last_value_exec(&key_values_exec(&lines, "plural:"));
        let history = key_values_exec(&lines, "history:");

        // Validate that we have the required fields
        if types.len() == 0 {
            return Err(
                BuildError::MissingRequiredField {
                    field: "type".to_owned(),
                    message_name: message_name.to_owned(),
                },
            );
        }
        // Compile the patterns
        let mut parsed_patterns: Vec<ResourcePattern> = Vec::new();
        let mut k: usize = 0;
        while k < patterns.len()
            invariant
                k <= patterns@.len(),
                parsed_patterns@.len() == k,
                forall|j: int|
                    0 <= j < k ==> (#[trigger] parsed_patterns@[j])@ == compiled(
                        patterns@[j]@,
                    ),
            decreases patterns@.len() - k,
        {
            match self.parse_pattern(patterns[k].as_str()) {
                Ok(p) => {
                    parsed_patterns.push(p);
                },
                Err(e) => {
                    return Err(e);
                },
            }
            k += 1;
        }
        proof {
            assert(parsed_patterns.deep_view() =~= compile_all(patterns.deep_view()));
        }
        let resource_type = types[types.len() - 1].clone();
        let resource = ParsedResource {
            resource_type,
            patterns: parsed_patterns,
            singular,
            plural,
            history,
            source_file: file_name.to_owned(),
            message_name: message_name.to_owned(),
        };
        proof {
            assert(resource@ == spelled_resource(aggregate_value@, file_name@, message_name@));
        }

        // Hold what was spelled to the invariant of a descriptor
        match resource.check() {
            Ok(()) => Ok(Some(resource)),
            Err(e) => Err(e),
        }
    }

    /// The value that `line` gives to the key `prefix`, if the line starts
    /// with it.
    pub fn extract_quoted_value(&self, line: &str, prefix: &str) -> (out: Option<String>)
        ensures
            out.deep_view() == entry_value(line@, prefix@),
    {
        entry_value_exec(chars_of(line).as_slice(), chars_of(prefix).as_slice())
    }

    /// The reference that a field declares, if any.
    pub fn parse_resource_reference_annotation(
        &self,
        field: &SchemaField,
        file_name: &str,
        message_name: &str,
    ) -> (r: Result<Option<ParsedResourceReference>, BuildError>)
        ensures
            r is Ok,
            result_deep_view(r) == Ok::<Option<ParsedReferenceModel>, BuildErrorModel>(
                reference_annotation(field@, file_name@, message_name@),
            ),
    {
        let field_name = name_of(&field.name);

        // Only process string fields
        if !field.is_string {
            return Ok(None);
        }
        let mut k: usize = 0;
        while k < field.options.len()
            invariant
                k <= field.options@.len(),
                field.is_string,
                field_name@ == name_text(field@.name),
                reference_annotation_upto(
                    field@.options,
                    field_name@,
                    message_name@,
                    file_name@,
                    k as int,
                ) is None,
            decreases field.options@.len() - k,
        {
            let found = self.parse_google_api_resource_reference_option(
                &field.options[k],
                field_name.as_str(),
                message_name,
                file_name,
            );
            proof {
                assert(field@.options[k as int] == field.options@[k as int]@);
                assert(result_deep_view(found) == Ok::<
                    Option<ParsedReferenceModel>,
                    BuildErrorModel,
                >(
                    reference_annotation_upto(
                        field@.options,
                        field_name@,
                        message_name@,
                        file_name@,
                        k + 1,
                    ),
                ));
            }
            match found {
                Ok(None) => {},
                other => {
                    proof {
                        lemma_reference_annotation_stays(
                            field@.options,
                            field_name@,
                            message_name@,
                            file_name@,
                            k + 1,
                            field.options@.len() as int,
                        );
                    }
                    return other;
                },
            }
            k += 1;
        }
        Ok(None)
    }

    /// What one option of a field declares.
    pub fn parse_google_api_resource_reference_option(
        &self,
        option: &SchemaOption,
        field_name: &str,
        message_name: &str,
        file_name: &str,
    ) -> (r: Result<Option<ParsedResourceReference>, BuildError>)
        ensures
            r is Ok,
            result_deep_view(r) == Ok::<Option<ParsedReferenceModel>, BuildErrorModel>(
                reference_option(option@, field_name@, message_name@, file_name@),
            ),
    {
        if option.number != RESOURCE_REFERENCE_EXTENSION {
            return Ok(None);
        }
        match &option.aggregate_value {
            Some(aggregate_value) => self.parse_resource_reference_from_aggregate(
                aggregate_value.as_str(),
                field_name,
                message_name,
                file_name,
            ),
            None => Ok(None),
        }
    }

    /// Decode the text payload of a resource reference annotation.
    pub fn parse_resource_reference_from_aggregate(
        &self,
        aggregate_value: &str,
        field_name: &str,
        message_name: &str,
        file_name: &str,
    ) -> (r: Result<Option<ParsedResourceReference>, BuildError>)
        ensures
            r is Ok,
            result_deep_view(r) == Ok::<Option<ParsedReferenceModel>, BuildErrorModel>(
                decode_reference(aggregate_value@, field_name@, message_name@, file_name@),
            ),
    {
        let text = chars_of(aggregate_value);
        let lines = split_chars(text.as_slice(), '\n');
        let resource_type = last_value_exec(&key_values_exec(&lines, "type:"));
        let child_type = last_value_exec(&key_values_exec(&lines, "child_type:"));

        // At least one of resource_type or child_type must be specified
        if resource_type.is_none() && child_type.is_none() {
            return Ok(None);
        }
        Ok(
            Some(
                ParsedResourceReference {
                    resource_type,
                    child_type,
                    field_name: field_name.to_owned(),
                    containing_message: message_name.to_owned(),
                    source_file: file_name.to_owned(),
                },
            ),
        )
    }

    /// Compile one pattern string.
    pub fn parse_pattern(&self, pattern: &str) -> (r: Result<ResourcePattern, BuildError>)
        ensures
            r matches Ok(p) && p@ == compiled(pattern@) && p@.wf(),
    {
        Ok(ResourcePattern::compile(pattern))
    }
}

impl Default for ResourceParser {
    fn default() -> Self {
        Self::new()
    }
}

} // verus!

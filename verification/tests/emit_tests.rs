use resource_codegen::emit_rust::{
    branch_struct_name_exec, is_selected, parent_fields_exec, wrapper_name_exec,
};
use resource_codegen::emit_text::{
    escape_exec, fill_each_exec, fill_exec, snake_exec, type_ident_exec,
};
use resource_codegen::{
    BuildError, EmitRust, GenerationRequest, ParsedResource, ParsedResourceReference, Registry,
    ResourceCodegen, ResourceCodegenOptions, ResourcePattern, SchemaField, SchemaFile,
    SchemaMessage, SchemaOption,
};

const LIBRARY: &str = r##"// @generated
use resource_codegen::ParseError;

/// `projects/{project}/books/{book}`
#[derive(Debug, Clone, PartialEq, Eq, Hash)]
pub struct BookResourceName {
    pub project: String,
    pub book: String,
}

impl BookResourceName {
    pub const PATTERN: &'static str = "projects/{project}/books/{book}";
    pub const RESOURCE_TYPE: &'static str = "library.example.com/Book";

    pub fn new(project: impl Into<String>, book: impl Into<String>, ) -> Result<Self, ParseError> {
        let name = Self { project: project.into(), book: book.into(), };
        name.validate()?;
        Ok(name)
    }

    pub fn resource_type(&self) -> &'static str {
        Self::RESOURCE_TYPE
    }

    pub fn contains_wildcard(&self) -> bool {
        false || self.project == "-" || self.book == "-"
    }

    pub fn validate(&self) -> Result<(), ParseError> {
        if self.project.is_empty() {
            return Err(ParseError::MissingComponent {
                component: "project".to_string(),
                value: self.to_string(),
            });
        }
        if self.project.contains('/') {
            return Err(ParseError::InvalidComponent {
                component: "project".to_string(),
                component_value: self.project.clone(),
                value: self.to_string(),
            });
        }
        if self.book.is_empty() {
            return Err(ParseError::MissingComponent {
                component: "book".to_string(),
                value: self.to_string(),
            });
        }
        if self.book.contains('/') {
            return Err(ParseError::InvalidComponent {
                component: "book".to_string(),
                component_value: self.book.clone(),
                value: self.to_string(),
            });
        }
        Ok(())
    }
}

impl std::fmt::Display for BookResourceName {
    fn fmt(&self, f: &mut std::fmt::Formatter<'_>) -> std::fmt::Result {
        f.write_str("projects/")?;
        f.write_str(&self.project)?;
        f.write_str("/books/")?;
        f.write_str(&self.book)?;
        Ok(())
    }
}

impl std::str::FromStr for BookResourceName {
    type Err = ParseError;

    fn from_str(s: &str) -> Result<Self, Self::Err> {
        if s.is_empty() {
            return Err(ParseError::EmptyValue);
        }
        let mismatch = || ParseError::InvalidPattern {
            value: s.to_string(),
            expected_pattern: Self::PATTERN.to_string(),
        };
        let rest = s;
        let rest = rest.strip_prefix("projects/").ok_or_else(mismatch)?;
        let end = rest.find('/').unwrap_or(rest.len());
        if end == 0 {
            return Err(mismatch());
        }
        let project = rest[..end].to_string();
        let rest = &rest[end..];
        let rest = rest.strip_prefix("/books/").ok_or_else(mismatch)?;
        let end = rest.find('/').unwrap_or(rest.len());
        if end == 0 {
            return Err(mismatch());
        }
        let book = rest[..end].to_string();
        let rest = &rest[end..];
        if !rest.is_empty() {
            return Err(mismatch());
        }
        Ok(Self { project, book, })
    }
}

/// `projects/{project}/shelves/{shelf}`
#[derive(Debug, Clone, PartialEq, Eq, Hash)]
pub struct ProjectsShelfResourceName {
    pub project: String,
    pub shelf: String,
}

impl ProjectsShelfResourceName {
    pub const PATTERN: &'static str = "projects/{project}/shelves/{shelf}";
    pub const RESOURCE_TYPE: &'static str = "library.example.com/Shelf";

    pub fn new(project: impl Into<String>, shelf: impl Into<String>, ) -> Result<Self, ParseError> {
        let name = Self { project: project.into(), shelf: shelf.into(), };
        name.validate()?;
        Ok(name)
    }

    pub fn resource_type(&self) -> &'static str {
        Self::RESOURCE_TYPE
    }

    pub fn contains_wildcard(&self) -> bool {
        false || self.project == "-" || self.shelf == "-"
    }

    pub fn validate(&self) -> Result<(), ParseError> {
        if self.project.is_empty() {
            return Err(ParseError::MissingComponent {
                component: "project".to_string(),
                value: self.to_string(),
            });
        }
        if self.project.contains('/') {
            return Err(ParseError::InvalidComponent {
                component: "project".to_string(),
                component_value: self.project.clone(),
                value: self.to_string(),
            });
        }
        if self.shelf.is_empty() {
            return Err(ParseError::MissingComponent {
                component: "shelf".to_string(),
                value: self.to_string(),
            });
        }
        if self.shelf.contains('/') {
            return Err(ParseError::InvalidComponent {
                component: "shelf".to_string(),
                component_value: self.shelf.clone(),
                value: self.to_string(),
            });
        }
        Ok(())
    }
}

impl std::fmt::Display for ProjectsShelfResourceName {
    fn fmt(&self, f: &mut std::fmt::Formatter<'_>) -> std::fmt::Result {
        f.write_str("projects/")?;
        f.write_str(&self.project)?;
        f.write_str("/shelves/")?;
        f.write_str(&self.shelf)?;
        Ok(())
    }
}

impl std::str::FromStr for ProjectsShelfResourceName {
    type Err = ParseError;

    fn from_str(s: &str) -> Result<Self, Self::Err> {
        if s.is_empty() {
            return Err(ParseError::EmptyValue);
        }
        let mismatch = || ParseError::InvalidPattern {
            value: s.to_string(),
            expected_pattern: Self::PATTERN.to_string(),
        };
        let rest = s;
        let rest = rest.strip_prefix("projects/").ok_or_else(mismatch)?;
        let end = rest.find('/').unwrap_or(rest.len());
        if end == 0 {
            return Err(mismatch());
        }
        let project = rest[..end].to_string();
        let rest = &rest[end..];
        let rest = rest.strip_prefix("/shelves/").ok_or_else(mismatch)?;
        let end = rest.find('/').unwrap_or(rest.len());
        if end == 0 {
            return Err(mismatch());
        }
        let shelf = rest[..end].to_string();
        let rest = &rest[end..];
        if !rest.is_empty() {
            return Err(mismatch());
        }
        Ok(Self { project, shelf, })
    }
}

/// `users/{user}/shelves/{shelf}`
#[derive(Debug, Clone, PartialEq, Eq, Hash)]
pub struct UsersShelfResourceName {
    pub user: String,
    pub shelf: String,
}

impl UsersShelfResourceName {
    pub const PATTERN: &'static str = "users/{user}/shelves/{shelf}";
    pub const RESOURCE_TYPE: &'static str = "library.example.com/Shelf";

    pub fn new(user: impl Into<String>, shelf: impl Into<String>, ) -> Result<Self, ParseError> {
        let name = Self { user: user.into(), shelf: shelf.into(), };
        name.validate()?;
        Ok(name)
    }

    pub fn resource_type(&self) -> &'static str {
        Self::RESOURCE_TYPE
    }

    pub fn contains_wildcard(&self) -> bool {
        false || self.user == "-" || self.shelf == "-"
    }

    pub fn validate(&self) -> Result<(), ParseError> {
        if self.user.is_empty() {
            return Err(ParseError::MissingComponent {
                component: "user".to_string(),
                value: self.to_string(),
            });
        }
        if self.user.contains('/') {
            return Err(ParseError::InvalidComponent {
                component: "user".to_string(),
                component_value: self.user.clone(),
                value: self.to_string(),
            });
        }
        if self.shelf.is_empty() {
            return Err(ParseError::MissingComponent {
                component: "shelf".to_string(),
                value: self.to_string(),
            });
        }
        if self.shelf.contains('/') {
            return Err(ParseError::InvalidComponent {
                component: "shelf".to_string(),
                component_value: self.shelf.clone(),
                value: self.to_string(),
            });
        }
        Ok(())
    }
}

impl std::fmt::Display for UsersShelfResourceName {
    fn fmt(&self, f: &mut std::fmt::Formatter<'_>) -> std::fmt::Result {
        f.write_str("users/")?;
        f.write_str(&self.user)?;
        f.write_str("/shelves/")?;
        f.write_str(&self.shelf)?;
        Ok(())
    }
}

impl std::str::FromStr for UsersShelfResourceName {
    type Err = ParseError;

    fn from_str(s: &str) -> Result<Self, Self::Err> {
        if s.is_empty() {
            return Err(ParseError::EmptyValue);
        }
        let mismatch = || ParseError::InvalidPattern {
            value: s.to_string(),
            expected_pattern: Self::PATTERN.to_string(),
        };
        let rest = s;
        let rest = rest.strip_prefix("users/").ok_or_else(mismatch)?;
        let end = rest.find('/').unwrap_or(rest.len());
        if end == 0 {
            return Err(mismatch());
        }
        let user = rest[..end].to_string();
        let rest = &rest[end..];
        let rest = rest.strip_prefix("/shelves/").ok_or_else(mismatch)?;
        let end = rest.find('/').unwrap_or(rest.len());
        if end == 0 {
            return Err(mismatch());
        }
        let shelf = rest[..end].to_string();
        let rest = &rest[end..];
        if !rest.is_empty() {
            return Err(mismatch());
        }
        Ok(Self { user, shelf, })
    }
}

#[derive(Debug, Clone, PartialEq, Eq, Hash)]
pub enum ShelfResourceName {
    Projects(ProjectsShelfResourceName),
    Users(UsersShelfResourceName),
}

impl ShelfResourceName {
    pub fn resource_type(&self) -> &'static str {
        "library.example.com/Shelf"
    }

    pub fn contains_wildcard(&self) -> bool {
        match self {
            Self::Projects(name) => name.contains_wildcard(),
            Self::Users(name) => name.contains_wildcard(),
        }
    }

    pub fn validate(&self) -> Result<(), ParseError> {
        match self {
            Self::Projects(name) => name.validate(),
            Self::Users(name) => name.validate(),
        }
    }
}

impl std::fmt::Display for ShelfResourceName {
    fn fmt(&self, f: &mut std::fmt::Formatter<'_>) -> std::fmt::Result {
        match self {
            Self::Projects(name) => std::fmt::Display::fmt(name, f),
            Self::Users(name) => std::fmt::Display::fmt(name, f),
        }
    }
}

impl std::str::FromStr for ShelfResourceName {
    type Err = ParseError;

    fn from_str(s: &str) -> Result<Self, Self::Err> {
        if s.is_empty() {
            return Err(ParseError::EmptyValue);
        }
        if let Ok(name) = s.parse::<ProjectsShelfResourceName>() {
            return Ok(Self::Projects(name));
        }
        if let Ok(name) = s.parse::<UsersShelfResourceName>() {
            return Ok(Self::Users(name));
        }
        Err(ParseError::InvalidPattern {
            value: s.to_string(),
            expected_pattern: "projects/{project}/shelves/{shelf}".to_string(),
        })
    }
}

pub fn parse_shelf_resource_name(s: &str) -> Result<ShelfResourceName, ParseError> {
    s.parse()
}

/// `projects/{project}/books/{book}/reviews/{review}`
#[derive(Debug, Clone, PartialEq, Eq, Hash)]
pub struct ReviewResourceName {
    pub project: String,
    pub book: String,
    pub review: String,
}

impl ReviewResourceName {
    pub const PATTERN: &'static str = "projects/{project}/books/{book}/reviews/{review}";
    pub const RESOURCE_TYPE: &'static str = "library.example.com/Review";

    pub fn new(project: impl Into<String>, book: impl Into<String>, review: impl Into<String>, ) -> Result<Self, ParseError> {
        let name = Self { project: project.into(), book: book.into(), review: review.into(), };
        name.validate()?;
        Ok(name)
    }

    pub fn resource_type(&self) -> &'static str {
        Self::RESOURCE_TYPE
    }

    pub fn contains_wildcard(&self) -> bool {
        false || self.project == "-" || self.book == "-" || self.review == "-"
    }

    pub fn validate(&self) -> Result<(), ParseError> {
        if self.project.is_empty() {
            return Err(ParseError::MissingComponent {
                component: "project".to_string(),
                value: self.to_string(),
            });
        }
        if self.project.contains('/') {
            return Err(ParseError::InvalidComponent {
                component: "project".to_string(),
                component_value: self.project.clone(),
                value: self.to_string(),
            });
        }
        if self.book.is_empty() {
            return Err(ParseError::MissingComponent {
                component: "book".to_string(),
                value: self.to_string(),
            });
        }
        if self.book.contains('/') {
            return Err(ParseError::InvalidComponent {
                component: "book".to_string(),
                component_value: self.book.clone(),
                value: self.to_string(),
            });
        }
        if self.review.is_empty() {
            return Err(ParseError::MissingComponent {
                component: "review".to_string(),
                value: self.to_string(),
            });
        }
        if self.review.contains('/') {
            return Err(ParseError::InvalidComponent {
                component: "review".to_string(),
                component_value: self.review.clone(),
                value: self.to_string(),
            });
        }
        Ok(())
    }

    pub fn parent(&self) -> BookResourceName {
        BookResourceName { project: self.project.clone(), book: self.book.clone(), }
    }
}

impl std::fmt::Display for ReviewResourceName {
    fn fmt(&self, f: &mut std::fmt::Formatter<'_>) -> std::fmt::Result {
        f.write_str("projects/")?;
        f.write_str(&self.project)?;
        f.write_str("/books/")?;
        f.write_str(&self.book)?;
        f.write_str("/reviews/")?;
        f.write_str(&self.review)?;
        Ok(())
    }
}

impl std::str::FromStr for ReviewResourceName {
    type Err = ParseError;

    fn from_str(s: &str) -> Result<Self, Self::Err> {
        if s.is_empty() {
            return Err(ParseError::EmptyValue);
        }
        let mismatch = || ParseError::InvalidPattern {
            value: s.to_string(),
            expected_pattern: Self::PATTERN.to_string(),
        };
        let rest = s;
        let rest = rest.strip_prefix("projects/").ok_or_else(mismatch)?;
        let end = rest.find('/').unwrap_or(rest.len());
        if end == 0 {
            return Err(mismatch());
        }
        let project = rest[..end].to_string();
        let rest = &rest[end..];
        let rest = rest.strip_prefix("/books/").ok_or_else(mismatch)?;
        let end = rest.find('/').unwrap_or(rest.len());
        if end == 0 {
            return Err(mismatch());
        }
        let book = rest[..end].to_string();
        let rest = &rest[end..];
        let rest = rest.strip_prefix("/reviews/").ok_or_else(mismatch)?;
        let end = rest.find('/').unwrap_or(rest.len());
        if end == 0 {
            return Err(mismatch());
        }
        let review = rest[..end].to_string();
        let rest = &rest[end..];
        if !rest.is_empty() {
            return Err(mismatch());
        }
        Ok(Self { project, book, review, })
    }
}

pub fn get_book_request_name_resource_type() -> &'static str {
    "library.example.com/Book"
}

pub fn parse_get_book_request_name(value: &str) -> Result<BookResourceName, ParseError> {
    value.parse()
}

pub fn get_book_request_parent_child_type() -> &'static str {
    "library.example.com/Unknown"
}

"##;

const TOPIC_UNIT: &str = r##"// @generated
use resource_codegen::ParseError;

/// `projects/{project}/topics/{topic}`
#[derive(Debug, Clone, PartialEq, Eq, Hash)]
pub struct TopicResourceName {
    pub project: String,
    pub topic: String,
}

impl TopicResourceName {
    pub const PATTERN: &'static str = "projects/{project}/topics/{topic}";
    pub const RESOURCE_TYPE: &'static str = "pubsub.example.com/Topic";

    pub fn new(project: impl Into<String>, topic: impl Into<String>, ) -> Result<Self, ParseError> {
        let name = Self { project: project.into(), topic: topic.into(), };
        name.validate()?;
        Ok(name)
    }

    pub fn resource_type(&self) -> &'static str {
        Self::RESOURCE_TYPE
    }

    pub fn contains_wildcard(&self) -> bool {
        false || self.project == "-" || self.topic == "-"
    }

    pub fn validate(&self) -> Result<(), ParseError> {
        if self.project.is_empty() {
            return Err(ParseError::MissingComponent {
                component: "project".to_string(),
                value: self.to_string(),
            });
        }
        if self.project.contains('/') {
            return Err(ParseError::InvalidComponent {
                component: "project".to_string(),
                component_value: self.project.clone(),
                value: self.to_string(),
            });
        }
        if self.topic.is_empty() {
            return Err(ParseError::MissingComponent {
                component: "topic".to_string(),
                value: self.to_string(),
            });
        }
        if self.topic.contains('/') {
            return Err(ParseError::InvalidComponent {
                component: "topic".to_string(),
                component_value: self.topic.clone(),
                value: self.to_string(),
            });
        }
        Ok(())
    }
}

impl std::fmt::Display for TopicResourceName {
    fn fmt(&self, f: &mut std::fmt::Formatter<'_>) -> std::fmt::Result {
        f.write_str("projects/")?;
        f.write_str(&self.project)?;
        f.write_str("/topics/")?;
        f.write_str(&self.topic)?;
        Ok(())
    }
}

impl std::str::FromStr for TopicResourceName {
    type Err = ParseError;

    fn from_str(s: &str) -> Result<Self, Self::Err> {
        if s.is_empty() {
            return Err(ParseError::EmptyValue);
        }
        let mismatch = || ParseError::InvalidPattern {
            value: s.to_string(),
            expected_pattern: Self::PATTERN.to_string(),
        };
        let rest = s;
        let rest = rest.strip_prefix("projects/").ok_or_else(mismatch)?;
        let end = rest.find('/').unwrap_or(rest.len());
        if end == 0 {
            return Err(mismatch());
        }
        let project = rest[..end].to_string();
        let rest = &rest[end..];
        let rest = rest.strip_prefix("/topics/").ok_or_else(mismatch)?;
        let end = rest.find('/').unwrap_or(rest.len());
        if end == 0 {
            return Err(mismatch());
        }
        let topic = rest[..end].to_string();
        let rest = &rest[end..];
        if !rest.is_empty() {
            return Err(mismatch());
        }
        Ok(Self { project, topic, })
    }
}

"##;

const TOPIC_REFERENCE: &str = r##"pub fn pkg_get_topic_request_topic_name_resource_type() -> &'static str {
    "pubsub.example.com/Topic"
}

"##;

const TOPIC_REFERENCE_TYPED: &str = r##"pub fn pkg_get_topic_request_topic_name_resource_type() -> &'static str {
    "pubsub.example.com/Topic"
}

pub fn parse_pkg_get_topic_request_topic_name(value: &str) -> Result<TopicResourceName, ParseError> {
    value.parse()
}

"##;

fn resource(resource_type: &str, patterns: &[&str], file: &str) -> ParsedResource {
    ParsedResource {
        resource_type: resource_type.to_string(),
        patterns: patterns.iter().map(|p| ResourcePattern::compile(p)).collect(),
        singular: None,
        plural: None,
        history: vec![],
        source_file: file.to_string(),
        message_name: "M".to_string(),
    }
}

fn topic() -> ParsedResource {
    resource("pubsub.example.com/Topic", &["projects/{project}/topics/{topic}"], "pubsub.proto")
}

fn topic_reference() -> ParsedResourceReference {
    ParsedResourceReference {
        resource_type: Some("pubsub.example.com/Topic".to_string()),
        child_type: None,
        field_name: "topic_name".to_string(),
        containing_message: "pkg.GetTopicRequest".to_string(),
        source_file: "pubsub.proto".to_string(),
    }
}

fn resource_message(name: &str, payload: &str) -> SchemaMessage {
    SchemaMessage {
        name: Some(name.to_string()),
        options: vec![SchemaOption { number: 1053, aggregate_value: Some(payload.to_string()) }],
        fields: vec![],
        nested: vec![],
    }
}

fn reference_field(name: &str, payload: &str) -> SchemaField {
    SchemaField {
        name: Some(name.to_string()),
        is_string: true,
        options: vec![SchemaOption { number: 1055, aggregate_value: Some(payload.to_string()) }],
    }
}

fn library_file() -> SchemaFile {
    SchemaFile {
        name: Some("library.proto".to_string()),
        messages: vec![
            resource_message(
                "Book",
                "type: \"library.example.com/Book\"\npattern: \"projects/{project}/books/{book}\"",
            ),
            resource_message(
                "Shelf",
                "type: \"library.example.com/Shelf\"\npattern: \"projects/{project}/shelves/{shelf}\"\npattern: \"users/{user}/shelves/{shelf}\"",
            ),
            resource_message(
                "Review",
                "type: \"library.example.com/Review\"\npattern: \"projects/{project}/books/{book}/reviews/{review}\"",
            ),
            SchemaMessage {
                name: Some("GetBookRequest".to_string()),
                options: vec![],
                fields: vec![
                    reference_field("name", "type: \"library.example.com/Book\""),
                    reference_field("parent", "child_type: \"library.example.com/Unknown\""),
                ],
                nested: vec![],
            },
        ],
    }
}

#[test]
fn templates_are_filled_in() {
    assert_eq!(fill_exec(&vec!["a", "b", "c"], "-"), "a-b-c");
    assert_eq!(fill_exec(&vec!["only"], "-"), "only");
    assert_eq!(fill_exec(&vec![], "-"), "");
    assert_eq!(fill_exec(&vec!["", ""], "x"), "x");
    assert_eq!(fill_each_exec(&vec!["<", ">"], &vec!["a", "b"]), "<a><b>");
    assert_eq!(fill_each_exec(&vec!["<", ">"], &vec![]), "");
}

#[test]
fn the_fields_of_a_parent_take_the_values_at_their_places() {
    assert_eq!(
        parent_fields_exec(&vec!["project", "book"], &vec!["project_id", "book_id", "review"], 2),
        "project: self.project_id.clone(), book: self.book_id.clone(), "
    );
    assert_eq!(parent_fields_exec(&vec!["project"], &vec!["p", "b"], 0), "");
    assert_eq!(parent_fields_exec(&vec!["project"], &vec!["p", "b"], 2), "");
    assert_eq!(parent_fields_exec(&vec!["project", "book"], &vec!["p"], 2), "");
}

#[test]
fn the_emitted_constructor_checks_the_values() {
    let text = EmitRust::new().emit_resource(&topic()).unwrap();
    assert!(text.contains(
        "    pub fn new(project: impl Into<String>, topic: impl Into<String>, ) -> Result<Self, ParseError> {\n        let name = Self { project: project.into(), topic: topic.into(), };\n        name.validate()?;\n        Ok(name)\n    }\n"
    ));
}

#[test]
fn a_parent_with_other_variable_names_is_linked_by_place() {
    let text = EmitRust::new()
        .emit_module(
            &[
                resource("library.example.com/Project", &["projects/{project}"], "l.proto"),
                resource("library.example.com/Book", &["projects/{project_id}/books/{book}"], "l.proto"),
            ],
            &[],
            &ResourceCodegenOptions::default(),
        )
        .unwrap();
    assert!(text.contains(
        "    pub fn parent(&self) -> ProjectResourceName {\n        ProjectResourceName { project: self.project_id.clone(), }\n    }\n"
    ));
}

#[test]
fn what_cannot_be_emitted_well_is_refused() {
    let emitter = EmitRust::new();
    assert_eq!(
        emitter.emit_resource(&resource("a/Settings", &["settings"], "a.proto")),
        Err(BuildError::PatternWithoutVariable {
            resource_type: "a/Settings".to_string(),
            pattern: "settings".to_string(),
        })
    );
    assert_eq!(
        emitter.emit_resource(&resource("a/Pair", &["pairs/{id}/more/{id}"], "a.proto")),
        Err(BuildError::RepeatedVariable {
            resource_type: "a/Pair".to_string(),
            pattern: "pairs/{id}/more/{id}".to_string(),
            variable: "id".to_string(),
        })
    );
    assert_eq!(
        emitter.emit_resource(&resource("a/File", &["files/{name}.json"], "a.proto")),
        Err(BuildError::UnreadablePattern {
            resource_type: "a/File".to_string(),
            pattern: "files/{name}.json".to_string(),
        })
    );
}

#[test]
fn text_is_escaped_for_a_string_literal() {
    assert_eq!(escape_exec("plain/{text}"), "plain/{text}");
    assert_eq!(escape_exec("a\"b\\c\nd\re\tf"), "a\\\"b\\\\c\\nd\\re\\tf");
    assert_eq!(escape_exec(""), "");
}

#[test]
fn identifiers_of_types() {
    assert_eq!(type_ident_exec("library.example.com/Shelf"), "Shelf");
    assert_eq!(type_ident_exec("a/b/book_review"), "BookReview");
    assert_eq!(type_ident_exec("Plain"), "Plain");
    assert_eq!(type_ident_exec("x/"), "");
    assert_eq!(snake_exec("Shelf"), "shelf");
    assert_eq!(snake_exec("BookReview"), "book_review");
    assert_eq!(snake_exec("pkg.GetTopicRequest"), "pkg_get_topic_request");
    assert_eq!(snake_exec("HTTPServer2Go"), "httpserver2_go");
    assert_eq!(snake_exec("already_snake"), "already_snake");
}

#[test]
fn names_of_emitted_types() {
    let registry = Registry::build(
        &[
            resource("library.example.com/Book", &["projects/{project}/books/{book}"], "l.proto"),
            resource(
                "library.example.com/Shelf",
                &["projects/{project}/shelves/{shelf}", "users/{user}/shelves/{shelf}"],
                "l.proto",
            ),
        ],
        &[],
    )
    .unwrap();
    assert_eq!(wrapper_name_exec(&registry.resources[0]), "BookResourceName");
    assert_eq!(branch_struct_name_exec(&registry.resources[0], 0), "BookResourceName");
    assert_eq!(wrapper_name_exec(&registry.resources[1]), "ShelfResourceName");
    assert_eq!(branch_struct_name_exec(&registry.resources[1], 0), "ProjectsShelfResourceName");
    assert_eq!(branch_struct_name_exec(&registry.resources[1], 1), "UsersShelfResourceName");
}

#[test]
fn selection_by_file() {
    assert!(is_selected(None, "a.proto"));
    assert!(is_selected(Some("a.proto"), "a.proto"));
    assert!(!is_selected(Some("a.proto"), "b.proto"));
}

#[test]
fn emit_module_gives_the_whole_unit() {
    let text = EmitRust::new()
        .emit_module(&[topic()], &[], &ResourceCodegenOptions::default())
        .unwrap();
    assert_eq!(text, TOPIC_UNIT);
}

#[test]
fn emit_module_fails_as_the_build_fails() {
    let err = EmitRust::new()
        .emit_module(&[topic(), topic()], &[], &ResourceCodegenOptions::default())
        .unwrap_err();
    assert!(matches!(err, BuildError::DuplicateResourceType { .. }));
}

#[test]
fn emit_resource_gives_what_stands_for_the_resource() {
    let text = EmitRust::default().emit_resource(&topic()).unwrap();
    assert_eq!(text, TOPIC_UNIT.strip_prefix("// @generated\nuse resource_codegen::ParseError;\n\n").unwrap());
    let err = EmitRust::new()
        .emit_resource(&resource("a/A", &["as/{a}", "as/{a}/bs/{b}"], "a.proto"))
        .unwrap_err();
    assert_eq!(
        err,
        BuildError::AmbiguousPatternPrefix {
            resource_type: "a/A".to_string(),
            branch_id: "As".to_string(),
        }
    );
}

#[test]
fn typed_accessors_come_with_the_extensions() {
    let emitter = EmitRust::new();
    let mut options = ResourceCodegenOptions::default();
    let text = emitter.emit_module(&[topic()], &[topic_reference()], &options).unwrap();
    assert_eq!(text, format!("{TOPIC_UNIT}{TOPIC_REFERENCE_TYPED}"));
    options.generate_extensions = false;
    let text = emitter.emit_module(&[topic()], &[topic_reference()], &options).unwrap();
    assert_eq!(text, format!("{TOPIC_UNIT}{TOPIC_REFERENCE}"));
}

#[test]
fn the_module_prefix_is_where_the_error_type_lives() {
    let options = ResourceCodegenOptions::from_parameter("module_prefix=crate::support").unwrap();
    let text = EmitRust::new().emit_module(&[], &[], &options).unwrap();
    assert_eq!(text, "// @generated\nuse crate::support::ParseError;\n\n");
    let text = EmitRust::new().emit_module(&[], &[], &ResourceCodegenOptions::default()).unwrap();
    assert_eq!(text, "// @generated\nuse resource_codegen::ParseError;\n\n");
}

#[test]
fn the_unit_of_a_file_holds_what_the_file_declares() {
    let registry = Registry::build(
        &[
            topic(),
            resource("library.example.com/Book", &["projects/{project}/books/{book}"], "l.proto"),
        ],
        &[topic_reference()],
    )
    .unwrap();
    let emitter = EmitRust::new();
    let options = ResourceCodegenOptions::default();
    assert_eq!(
        emitter.emit_unit(&registry, Some("pubsub.proto"), &options),
        format!("{TOPIC_UNIT}{TOPIC_REFERENCE_TYPED}")
    );
    assert_eq!(
        emitter.emit_unit(&registry, Some("none.proto"), &options),
        "// @generated\nuse resource_codegen::ParseError;\n\n"
    );
    assert_eq!(emitter.emit_resources(&registry, Some("pubsub.proto")), emitter.emit_resource_model(&registry, 0));
    assert_eq!(emitter.emit_references(&registry, Some("l.proto"), true), "");
    assert_eq!(emitter.emit_reference(&registry, &registry.references[0], false), TOPIC_REFERENCE);
}

#[test]
fn the_library_sample() {
    let options = ResourceCodegenOptions::from_parameter("module_prefix=resource_codegen").unwrap();
    let response = ResourceCodegen::new(options)
        .generate(GenerationRequest {
            file_to_generate: vec!["library.proto".to_string()],
            parameter: None,
            proto_file: vec![library_file()],
        })
        .unwrap();
    assert_eq!(response.files.len(), 1);
    assert_eq!(response.files[0].name, "library_resources.rs");
    let emitted: Vec<&str> = response.files[0].content.lines().collect();
    let expected: Vec<&str> = LIBRARY.lines().collect();
    for (k, line) in expected.iter().enumerate() {
        assert_eq!(emitted.get(k), Some(line), "line {}", k + 1);
    }
    assert_eq!(response.files[0].content, LIBRARY);
}

#[test]
fn two_runs_give_the_same_text() {
    let options = ResourceCodegenOptions::default();
    let run = || {
        ResourceCodegen::new(options.clone())
            .generate(GenerationRequest {
                file_to_generate: vec!["library.proto".to_string()],
                parameter: None,
                proto_file: vec![library_file()],
            })
            .unwrap()
    };
    assert_eq!(run(), run());
}

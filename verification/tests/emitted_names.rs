// The typed names of the library sample, as the emitter writes them (the text
// that `the_library_sample` expects), used here as a caller would use them.

use resource_codegen::ParseError;
use std::str::FromStr;

/// `projects/{project}/books/{book}`
#[derive(Debug, Clone, PartialEq, Eq, Hash)]
pub struct BookResourceName {
    pub project: String,
    pub book: String,
}

impl BookResourceName {
    pub const PATTERN: &'static str = "projects/{project}/books/{book}";
    pub const RESOURCE_TYPE: &'static str = "library.example.com/Book";

    pub fn new(project: impl Into<String>, book: impl Into<String>, ) -> Result<Self, ParseError> {
        let name = Self { project: project.into(), book: book.into(), };
        name.validate()?;
        Ok(name)
    }

    pub fn resource_type(&self) -> &'static str {
        Self::RESOURCE_TYPE
    }

    pub fn contains_wildcard(&self) -> bool {
        false || self.project == "-" || self.book == "-"
    }

    pub fn validate(&self) -> Result<(), ParseError> {
        if self.project.is_empty() {
            return Err(ParseError::MissingComponent {
                component: "project".to_string(),
                value: self.to_string(),
            });
        }
        if self.project.contains('/') {
            return Err(ParseError::InvalidComponent {
                component: "project".to_string(),
                component_value: self.project.clone(),
                value: self.to_string(),
            });
        }
        if self.book.is_empty() {
            return Err(ParseError::MissingComponent {
                component: "book".to_string(),
                value: self.to_string(),
            });
        }
        if self.book.contains('/') {
            return Err(ParseError::InvalidComponent {
                component: "book".to_string(),
                component_value: self.book.clone(),
                value: self.to_string(),
            });
        }
        Ok(())
    }
}

impl std::fmt::Display for BookResourceName {
    fn fmt(&self, f: &mut std::fmt::Formatter<'_>) -> std::fmt::Result {
        f.write_str("projects/")?;
        f.write_str(&self.project)?;
        f.write_str("/books/")?;
        f.write_str(&self.book)?;
        Ok(())
    }
}

impl std::str::FromStr for BookResourceName {
    type Err = ParseError;

    fn from_str(s: &str) -> Result<Self, Self::Err> {
        if s.is_empty() {
            return Err(ParseError::EmptyValue);
        }
        let mismatch = || ParseError::InvalidPattern {
            value: s.to_string(),
            expected_pattern: Self::PATTERN.to_string(),
        };
        let rest = s;
        let rest = rest.strip_prefix("projects/").ok_or_else(mismatch)?;
        let end = rest.find('/').unwrap_or(rest.len());
        if end == 0 {
            return Err(mismatch());
        }
        let project = rest[..end].to_string();
        let rest = &rest[end..];
        let rest = rest.strip_prefix("/books/").ok_or_else(mismatch)?;
        let end = rest.find('/').unwrap_or(rest.len());
        if end == 0 {
            return Err(mismatch());
        }
        let book = rest[..end].to_string();
        let rest = &rest[end..];
        if !rest.is_empty() {
            return Err(mismatch());
        }
        Ok(Self { project, book, })
    }
}

/// `projects/{project}/shelves/{shelf}`
#[derive(Debug, Clone, PartialEq, Eq, Hash)]
pub struct ProjectsShelfResourceName {
    pub project: String,
    pub shelf: String,
}

impl ProjectsShelfResourceName {
    pub const PATTERN: &'static str = "projects/{project}/shelves/{shelf}";
    pub const RESOURCE_TYPE: &'static str = "library.example.com/Shelf";

    pub fn new(project: impl Into<String>, shelf: impl Into<String>, ) -> Result<Self, ParseError> {
        let name = Self { project: project.into(), shelf: shelf.into(), };
        name.validate()?;
        Ok(name)
    }

    pub fn resource_type(&self) -> &'static str {
        Self::RESOURCE_TYPE
    }

    pub fn contains_wildcard(&self) -> bool {
        false || self.project == "-" || self.shelf == "-"
    }

    pub fn validate(&self) -> Result<(), ParseError> {
        if self.project.is_empty() {
            return Err(ParseError::MissingComponent {
                component: "project".to_string(),
                value: self.to_string(),
            });
        }
        if self.project.contains('/') {
            return Err(ParseError::InvalidComponent {
                component: "project".to_string(),
                component_value: self.project.clone(),
                value: self.to_string(),
            });
        }
        if self.shelf.is_empty() {
            return Err(ParseError::MissingComponent {
                component: "shelf".to_string(),
                value: self.to_string(),
            });
        }
        if self.shelf.contains('/') {
            return Err(ParseError::InvalidComponent {
                component: "shelf".to_string(),
                component_value: self.shelf.clone(),
                value: self.to_string(),
            });
        }
        Ok(())
    }
}

impl std::fmt::Display for ProjectsShelfResourceName {
    fn fmt(&self, f: &mut std::fmt::Formatter<'_>) -> std::fmt::Result {
        f.write_str("projects/")?;
        f.write_str(&self.project)?;
        f.write_str("/shelves/")?;
        f.write_str(&self.shelf)?;
        Ok(())
    }
}

impl std::str::FromStr for ProjectsShelfResourceName {
    type Err = ParseError;

    fn from_str(s: &str) -> Result<Self, Self::Err> {
        if s.is_empty() {
            return Err(ParseError::EmptyValue);
        }
        let mismatch = || ParseError::InvalidPattern {
            value: s.to_string(),
            expected_pattern: Self::PATTERN.to_string(),
        };
        let rest = s;
        let rest = rest.strip_prefix("projects/").ok_or_else(mismatch)?;
        let end = rest.find('/').unwrap_or(rest.len());
        if end == 0 {
            return Err(mismatch());
        }
        let project = rest[..end].to_string();
        let rest = &rest[end..];
        let rest = rest.strip_prefix("/shelves/").ok_or_else(mismatch)?;
        let end = rest.find('/').unwrap_or(rest.len());
        if end == 0 {
            return Err(mismatch());
        }
        let shelf = rest[..end].to_string();
        let rest = &rest[end..];
        if !rest.is_empty() {
            return Err(mismatch());
        }
        Ok(Self { project, shelf, })
    }
}

/// `users/{user}/shelves/{shelf}`
#[derive(Debug, Clone, PartialEq, Eq, Hash)]
pub struct UsersShelfResourceName {
    pub user: String,
    pub shelf: String,
}

impl UsersShelfResourceName {
    pub const PATTERN: &'static str = "users/{user}/shelves/{shelf}";
    pub const RESOURCE_TYPE: &'static str = "library.example.com/Shelf";

    pub fn new(user: impl Into<String>, shelf: impl Into<String>, ) -> Result<Self, ParseError> {
        let name = Self { user: user.into(), shelf: shelf.into(), };
        name.validate()?;
        Ok(name)
    }

    pub fn resource_type(&self) -> &'static str {
        Self::RESOURCE_TYPE
    }

    pub fn contains_wildcard(&self) -> bool {
        false || self.user == "-" || self.shelf == "-"
    }

    pub fn validate(&self) -> Result<(), ParseError> {
        if self.user.is_empty() {
            return Err(ParseError::MissingComponent {
                component: "user".to_string(),
                value: self.to_string(),
            });
        }
        if self.user.contains('/') {
            return Err(ParseError::InvalidComponent {
                component: "user".to_string(),
                component_value: self.user.clone(),
                value: self.to_string(),
            });
        }
        if self.shelf.is_empty() {
            return Err(ParseError::MissingComponent {
                component: "shelf".to_string(),
                value: self.to_string(),
            });
        }
        if self.shelf.contains('/') {
            return Err(ParseError::InvalidComponent {
                component: "shelf".to_string(),
                component_value: self.shelf.clone(),
                value: self.to_string(),
            });
        }
        Ok(())
    }
}

impl std::fmt::Display for UsersShelfResourceName {
    fn fmt(&self, f: &mut std::fmt::Formatter<'_>) -> std::fmt::Result {
        f.write_str("users/")?;
        f.write_str(&self.user)?;
        f.write_str("/shelves/")?;
        f.write_str(&self.shelf)?;
        Ok(())
    }
}

impl std::str::FromStr for UsersShelfResourceName {
    type Err = ParseError;

    fn from_str(s: &str) -> Result<Self, Self::Err> {
        if s.is_empty() {
            return Err(ParseError::EmptyValue);
        }
        let mismatch = || ParseError::InvalidPattern {
            value: s.to_string(),
            expected_pattern: Self::PATTERN.to_string(),
        };
        let rest = s;
        let rest = rest.strip_prefix("users/").ok_or_else(mismatch)?;
        let end = rest.find('/').unwrap_or(rest.len());
        if end == 0 {
            return Err(mismatch());
        }
        let user = rest[..end].to_string();
        let rest = &rest[end..];
        let rest = rest.strip_prefix("/shelves/").ok_or_else(mismatch)?;
        let end = rest.find('/').unwrap_or(rest.len());
        if end == 0 {
            return Err(mismatch());
        }
        let shelf = rest[..end].to_string();
        let rest = &rest[end..];
        if !rest.is_empty() {
            return Err(mismatch());
        }
        Ok(Self { user, shelf, })
    }
}

#[derive(Debug, Clone, PartialEq, Eq, Hash)]
pub enum ShelfResourceName {
    Projects(ProjectsShelfResourceName),
    Users(UsersShelfResourceName),
}

impl ShelfResourceName {
    pub fn resource_type(&self) -> &'static str {
        "library.example.com/Shelf"
    }

    pub fn contains_wildcard(&self) -> bool {
        match self {
            Self::Projects(name) => name.contains_wildcard(),
            Self::Users(name) => name.contains_wildcard(),
        }
    }

    pub fn validate(&self) -> Result<(), ParseError> {
        match self {
            Self::Projects(name) => name.validate(),
            Self::Users(name) => name.validate(),
        }
    }
}

impl std::fmt::Display for ShelfResourceName {
    fn fmt(&self, f: &mut std::fmt::Formatter<'_>) -> std::fmt::Result {
        match self {
            Self::Projects(name) => std::fmt::Display::fmt(name, f),
            Self::Users(name) => std::fmt::Display::fmt(name, f),
        }
    }
}

impl std::str::FromStr for ShelfResourceName {
    type Err = ParseError;

    fn from_str(s: &str) -> Result<Self, Self::Err> {
        if s.is_empty() {
            return Err(ParseError::EmptyValue);
        }
        if let Ok(name) = s.parse::<ProjectsShelfResourceName>() {
            return Ok(Self::Projects(name));
        }
        if let Ok(name) = s.parse::<UsersShelfResourceName>() {
            return Ok(Self::Users(name));
        }
        Err(ParseError::InvalidPattern {
            value: s.to_string(),
            expected_pattern: "projects/{project}/shelves/{shelf}".to_string(),
        })
    }
}

pub fn parse_shelf_resource_name(s: &str) -> Result<ShelfResourceName, ParseError> {
    s.parse()
}

/// `projects/{project}/books/{book}/reviews/{review}`
#[derive(Debug, Clone, PartialEq, Eq, Hash)]
pub struct ReviewResourceName {
    pub project: String,
    pub book: String,
    pub review: String,
}

impl ReviewResourceName {
    pub const PATTERN: &'static str = "projects/{project}/books/{book}/reviews/{review}";
    pub const RESOURCE_TYPE: &'static str = "library.example.com/Review";

    pub fn new(project: impl Into<String>, book: impl Into<String>, review: impl Into<String>, ) -> Result<Self, ParseError> {
        let name = Self { project: project.into(), book: book.into(), review: review.into(), };
        name.validate()?;
        Ok(name)
    }

    pub fn resource_type(&self) -> &'static str {
        Self::RESOURCE_TYPE
    }

    pub fn contains_wildcard(&self) -> bool {
        false || self.project == "-" || self.book == "-" || self.review == "-"
    }

    pub fn validate(&self) -> Result<(), ParseError> {
        if self.project.is_empty() {
            return Err(ParseError::MissingComponent {
                component: "project".to_string(),
                value: self.to_string(),
            });
        }
        if self.project.contains('/') {
            return Err(ParseError::InvalidComponent {
                component: "project".to_string(),
                component_value: self.project.clone(),
                value: self.to_string(),
            });
        }
        if self.book.is_empty() {
            return Err(ParseError::MissingComponent {
                component: "book".to_string(),
                value: self.to_string(),
            });
        }
        if self.book.contains('/') {
            return Err(ParseError::InvalidComponent {
                component: "book".to_string(),
                component_value: self.book.clone(),
                value: self.to_string(),
            });
        }
        if self.review.is_empty() {
            return Err(ParseError::MissingComponent {
                component: "review".to_string(),
                value: self.to_string(),
            });
        }
        if self.review.contains('/') {
            return Err(ParseError::InvalidComponent {
                component: "review".to_string(),
                component_value: self.review.clone(),
                value: self.to_string(),
            });
        }
        Ok(())
    }

    pub fn parent(&self) -> BookResourceName {
        BookResourceName { project: self.project.clone(), book: self.book.clone(), }
    }
}

impl std::fmt::Display for ReviewResourceName {
    fn fmt(&self, f: &mut std::fmt::Formatter<'_>) -> std::fmt::Result {
        f.write_str("projects/")?;
        f.write_str(&self.project)?;
        f.write_str("/books/")?;
        f.write_str(&self.book)?;
        f.write_str("/reviews/")?;
        f.write_str(&self.review)?;
        Ok(())
    }
}

impl std::str::FromStr for ReviewResourceName {
    type Err = ParseError;

    fn from_str(s: &str) -> Result<Self, Self::Err> {
        if s.is_empty() {
            return Err(ParseError::EmptyValue);
        }
        let mismatch = || ParseError::InvalidPattern {
            value: s.to_string(),
            expected_pattern: Self::PATTERN.to_string(),
        };
        let rest = s;
        let rest = rest.strip_prefix("projects/").ok_or_else(mismatch)?;
        let end = rest.find('/').unwrap_or(rest.len());
        if end == 0 {
            return Err(mismatch());
        }
        let project = rest[..end].to_string();
        let rest = &rest[end..];
        let rest = rest.strip_prefix("/books/").ok_or_else(mismatch)?;
        let end = rest.find('/').unwrap_or(rest.len());
        if end == 0 {
            return Err(mismatch());
        }
        let book = rest[..end].to_string();
        let rest = &rest[end..];
        let rest = rest.strip_prefix("/reviews/").ok_or_else(mismatch)?;
        let end = rest.find('/').unwrap_or(rest.len());
        if end == 0 {
            return Err(mismatch());
        }
        let review = rest[..end].to_string();
        let rest = &rest[end..];
        if !rest.is_empty() {
            return Err(mismatch());
        }
        Ok(Self { project, book, review, })
    }
}

pub fn get_book_request_name_resource_type() -> &'static str {
    "library.example.com/Book"
}

pub fn parse_get_book_request_name(value: &str) -> Result<BookResourceName, ParseError> {
    value.parse()
}

pub fn get_book_request_parent_child_type() -> &'static str {
    "library.example.com/Unknown"
}

#[test]
fn test_book_name_round_trip() {
    let book = BookResourceName::new("test-project", "test-book").unwrap();
    let book_str = book.to_string();
    let parsed = BookResourceName::from_str(&book_str).unwrap();
    assert_eq!(book, parsed);
}

#[test]
fn test_shelf_multi_pattern() {
    let project_shelf = ProjectsShelfResourceName::new("proj", "shelf1").unwrap();
    let user_shelf = UsersShelfResourceName::new("user1", "shelf2").unwrap();

    // Both should parse correctly through the enum
    let parsed1 =
        parse_shelf_resource_name(&ShelfResourceName::Projects(project_shelf).to_string())
            .unwrap();
    let parsed2 =
        parse_shelf_resource_name(&ShelfResourceName::Users(user_shelf).to_string()).unwrap();

    assert_eq!(parsed1.resource_type(), "library.example.com/Shelf");
    assert_eq!(parsed2.resource_type(), "library.example.com/Shelf");
}

#[test]
fn test_wildcard_detection() {
    let normal_book = BookResourceName::new("project", "book").unwrap();
    let wildcard_book = BookResourceName::new("project", "-").unwrap();

    assert!(!normal_book.contains_wildcard());
    assert!(wildcard_book.contains_wildcard());
}

#[test]
fn test_validation() {
    let valid_book = BookResourceName::new("valid-project", "valid-book");
    let invalid_book = BookResourceName::new("", "book");

    assert!(valid_book.is_ok());
    assert!(valid_book.unwrap().validate().is_ok());
    assert!(invalid_book.is_err());
}

#[test]
fn test_nested_resource() {
    let review = ReviewResourceName::new("proj", "book", "rev").unwrap();
    let review_str = review.to_string();
    assert!(review_str.contains("projects/proj/books/book/reviews/rev"));

    let parsed = ReviewResourceName::from_str(&review_str).unwrap();
    assert_eq!(review, parsed);
}

#[test]
fn emitted_branches_are_told_apart_by_their_literals() {
    let parsed = parse_shelf_resource_name("projects/p1/shelves/s1").unwrap();
    assert_eq!(
        parsed,
        ShelfResourceName::Projects(ProjectsShelfResourceName::new("p1", "s1").unwrap())
    );
    let parsed = parse_shelf_resource_name("users/u1/shelves/s1").unwrap();
    assert_eq!(
        parsed,
        ShelfResourceName::Users(UsersShelfResourceName::new("u1", "s1").unwrap())
    );
    assert_eq!(
        parse_shelf_resource_name("widgets/w1"),
        Err(ParseError::InvalidPattern {
            value: "widgets/w1".to_string(),
            expected_pattern: "projects/{project}/shelves/{shelf}".to_string(),
        })
    );
}

#[test]
fn emitted_constructor_fails_on_an_empty_value() {
    assert_eq!(
        BookResourceName::new("", "book"),
        Err(ParseError::MissingComponent {
            component: "project".to_string(),
            value: "projects//books/book".to_string(),
        })
    );
    assert_eq!(
        BookResourceName::new("project", ""),
        Err(ParseError::MissingComponent {
            component: "book".to_string(),
            value: "projects/project/books/".to_string(),
        })
    );
    assert_eq!(
        BookResourceName::new("", ""),
        Err(ParseError::MissingComponent {
            component: "project".to_string(),
            value: "projects//books/".to_string(),
        })
    );
    assert_eq!(
        ReviewResourceName::new("p", "b", ""),
        Err(ParseError::MissingComponent {
            component: "review".to_string(),
            value: "projects/p/books/b/reviews/".to_string(),
        })
    );
    assert_eq!(
        UsersShelfResourceName::new("", "-"),
        Err(ParseError::MissingComponent {
            component: "user".to_string(),
            value: "users//shelves/-".to_string(),
        })
    );
}

#[test]
fn emitted_constructor_reports_the_first_value_that_is_wrong() {
    assert_eq!(
        BookResourceName::new("p", "a/b"),
        Err(ParseError::InvalidComponent {
            component: "book".to_string(),
            component_value: "a/b".to_string(),
            value: "projects/p/books/a/b".to_string(),
        })
    );
    assert_eq!(
        BookResourceName::new("a/b", ""),
        Err(ParseError::InvalidComponent {
            component: "project".to_string(),
            component_value: "a/b".to_string(),
            value: "projects/a/b/books/".to_string(),
        })
    );
    assert_eq!(
        BookResourceName::new("", "a/b"),
        Err(ParseError::MissingComponent {
            component: "project".to_string(),
            value: "projects//books/a/b".to_string(),
        })
    );
}

#[test]
fn emitted_constructor_takes_the_wildcard() {
    for (project, shelf) in [("-", "s1"), ("p1", "-"), ("-", "-")] {
        let name = ProjectsShelfResourceName::new(project, shelf).unwrap();
        assert!(name.contains_wildcard());
        assert!(name.validate().is_ok());
        let text = name.to_string();
        assert_eq!(ProjectsShelfResourceName::from_str(&text), Ok(name));
    }
    assert!(!ProjectsShelfResourceName::new("p1", "s1").unwrap().contains_wildcard());
    assert!(!ProjectsShelfResourceName::new("--", "a-b").unwrap().contains_wildcard());
}

#[test]
fn emitted_validation_holds_a_value_made_by_hand_to_the_same_rule() {
    let book = BookResourceName { project: String::new(), book: "book".to_string() };
    assert_eq!(
        book.validate(),
        Err(ParseError::MissingComponent {
            component: "project".to_string(),
            value: "projects//books/book".to_string(),
        })
    );
    let book = BookResourceName { project: "p".to_string(), book: "a/b".to_string() };
    assert_eq!(
        book.validate(),
        Err(ParseError::InvalidComponent {
            component: "book".to_string(),
            component_value: "a/b".to_string(),
            value: "projects/p/books/a/b".to_string(),
        })
    );
}

#[test]
fn emitted_parser_rejects_what_does_not_match() {
    assert_eq!(BookResourceName::from_str(""), Err(ParseError::EmptyValue));
    for candidate in [
        "projects/p/books/",
        "projects//books/b",
        "projects/p/books/b/",
        "projects/p/books/b/c",
        "project/p/books/b",
        "projects/p",
    ] {
        assert_eq!(
            BookResourceName::from_str(candidate),
            Err(ParseError::InvalidPattern {
                value: candidate.to_string(),
                expected_pattern: "projects/{project}/books/{book}".to_string(),
            }),
            "candidate {candidate:?}"
        );
    }
}

#[test]
fn emitted_parser_and_constructor_agree() {
    for (project, book) in [("p", "b"), ("-", "b"), ("my project", "caf\u{e9}")] {
        let made = BookResourceName::new(project, book).unwrap();
        let text = format!("projects/{project}/books/{book}");
        assert_eq!(made.to_string(), text);
        assert_eq!(BookResourceName::from_str(&text), Ok(made));
    }
}

#[test]
fn emitted_parent_is_the_start_of_the_name() {
    let review = ReviewResourceName::new("p1", "b1", "r1").unwrap();
    let parent: BookResourceName = review.parent();
    assert_eq!(parent, BookResourceName::new("p1", "b1").unwrap());
    assert_eq!(parent.to_string(), "projects/p1/books/b1");
    assert!(review.to_string().starts_with(&parent.to_string()));
    assert!(parent.validate().is_ok());
}

#[test]
fn emitted_wrapper_passes_the_accessors_on() {
    let shelf = ShelfResourceName::Users(UsersShelfResourceName::new("-", "s").unwrap());
    assert!(shelf.contains_wildcard());
    assert!(shelf.validate().is_ok());
    assert_eq!(shelf.to_string(), "users/-/shelves/s");
    let by_hand = ProjectsShelfResourceName { project: "p".to_string(), shelf: String::new() };
    let shelf = ShelfResourceName::Projects(by_hand);
    assert!(!shelf.contains_wildcard());
    assert!(shelf.validate().is_err());
}

#[test]
fn emitted_reference_accessors_name_the_types() {
    assert_eq!(get_book_request_name_resource_type(), "library.example.com/Book");
    assert_eq!(get_book_request_parent_child_type(), "library.example.com/Unknown");
    assert_eq!(
        parse_get_book_request_name("projects/p/books/b"),
        BookResourceName::new("p", "b")
    );
    assert_eq!(BookResourceName::PATTERN, "projects/{project}/books/{book}");
    assert_eq!(
        BookResourceName::new("p", "b").unwrap().resource_type(),
        "library.example.com/Book"
    );
}

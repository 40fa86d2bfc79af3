//! Opaque segment values: the value of one variable of a resource name, by
//! the kind of resource that it names. A value made by `try_from` is not
//! empty.

use vstd::prelude::*;

verus! {

/// The name of a project.
#[derive(Clone, Debug, PartialEq, Eq)]
pub struct ProjectName(String);

impl View for ProjectName {
    type V = Seq<char>;

    closed spec fn view(&self) -> Seq<char> {
        self.0@
    }
}

impl ProjectName {
    /// A name with the given text, whatever it is.
    pub fn new(s: String) -> (out: Self)
        ensures
            out@ == s@,
    {
        Self(s)
    }

    /// The text of the name.
    pub fn to_string(&self) -> (out: String)
        ensures
            out@ == self@,
    {
        self.0.clone()
    }
}

impl TryFrom<String> for ProjectName {
    type Error = String;

    /// A name with the given text, which must not be empty.
    fn try_from(s: String) -> (r: Result<Self, String>)
        ensures
            match r {
                Ok(name) => s@.len() > 0 && name@ == s@,
                Err(e) => s@.len() == 0 && e@ == "empty"@,
            },
    {
        if s.as_str().is_empty() {
            Err("empty".to_owned())
        } else {
            Ok(ProjectName(s))
        }
    }
}

/// `try_from` is specified by its own contract: an error holds a string,
/// of which a specification can tell the characters and not the identity.
impl vstd::std_specs::convert::TryFromSpecImpl<String> for ProjectName {
    open spec fn obeys_try_from_spec() -> bool {
        false
    }

    open spec fn try_from_spec(v: String) -> Result<Self, String> {
        arbitrary()
    }
}

/// The name of a topic.
#[derive(Clone, Debug, PartialEq, Eq)]
pub struct TopicName(String);

impl View for TopicName {
    type V = Seq<char>;

    closed spec fn view(&self) -> Seq<char> {
        self.0@
    }
}

impl TopicName {
    /// A name with the given text, whatever it is.
    pub fn new(s: String) -> (out: Self)
        ensures
            out@ == s@,
    {
        Self(s)
    }

    /// The text of the name.
    pub fn to_string(&self) -> (out: String)
        ensures
            out@ == self@,
    {
        self.0.clone()
    }
}

impl TryFrom<String> for TopicName {
    type Error = String;

    /// A name with the given text, which must not be empty.
    fn try_from(s: String) -> (r: Result<Self, String>)
        ensures
            match r {
                Ok(name) => s@.len() > 0 && name@ == s@,
                Err(e) => s@.len() == 0 && e@ == "empty"@,
            },
    {
        if s.as_str().is_empty() {
            Err("empty".to_owned())
        } else {
            Ok(TopicName(s))
        }
    }
}

/// `try_from` is specified by its own contract: an error holds a string,
/// of which a specification can tell the characters and not the identity.
impl vstd::std_specs::convert::TryFromSpecImpl<String> for TopicName {
    open spec fn obeys_try_from_spec() -> bool {
        false
    }

    open spec fn try_from_spec(v: String) -> Result<Self, String> {
        arbitrary()
    }
}

/// The name of a bucket.
#[derive(Clone, Debug, PartialEq, Eq)]
pub struct BucketName(String);

impl View for BucketName {
    type V = Seq<char>;

    closed spec fn view(&self) -> Seq<char> {
        self.0@
    }
}

impl BucketName {
    /// A name with the given text, whatever it is.
    pub fn new(s: String) -> (out: Self)
        ensures
            out@ == s@,
    {
        Self(s)
    }

    /// The text of the name.
    pub fn to_string(&self) -> (out: String)
        ensures
            out@ == self@,
    {
        self.0.clone()
    }
}

impl TryFrom<String> for BucketName {
    type Error = String;

    /// A name with the given text, which must not be empty.
    fn try_from(s: String) -> (r: Result<Self, String>)
        ensures
            match r {
                Ok(name) => s@.len() > 0 && name@ == s@,
                Err(e) => s@.len() == 0 && e@ == "empty"@,
            },
    {
        if s.as_str().is_empty() {
            Err("empty".to_owned())
        } else {
            Ok(BucketName(s))
        }
    }
}

/// `try_from` is specified by its own contract: an error holds a string,
/// of which a specification can tell the characters and not the identity.
impl vstd::std_specs::convert::TryFromSpecImpl<String> for BucketName {
    open spec fn obeys_try_from_spec() -> bool {
        false
    }

    open spec fn try_from_spec(v: String) -> Result<Self, String> {
        arbitrary()
    }
}

/// The name of a user.
#[derive(Clone, Debug, PartialEq, Eq)]
pub struct UserName(String);

impl View for UserName {
    type V = Seq<char>;

    closed spec fn view(&self) -> Seq<char> {
        self.0@
    }
}

impl UserName {
    /// A name with the given text, whatever it is.
    pub fn new(s: String) -> (out: Self)
        ensures
            out@ == s@,
    {
        Self(s)
    }

    /// The text of the name.
    pub fn to_string(&self) -> (out: String)
        ensures
            out@ == self@,
    {
        self.0.clone()
    }
}

impl TryFrom<String> for UserName {
    type Error = String;

    /// A name with the given text, which must not be empty.
    fn try_from(s: String) -> (r: Result<Self, String>)
        ensures
            match r {
                Ok(name) => s@.len() > 0 && name@ == s@,
                Err(e) => s@.len() == 0 && e@ == "empty"@,
            },
    {
        if s.as_str().is_empty() {
            Err("empty".to_owned())
        } else {
            Ok(UserName(s))
        }
    }
}

/// `try_from` is specified by its own contract: an error holds a string,
/// of which a specification can tell the characters and not the identity.
impl vstd::std_specs::convert::TryFromSpecImpl<String> for UserName {
    open spec fn obeys_try_from_spec() -> bool {
        false
    }

    open spec fn try_from_spec(v: String) -> Result<Self, String> {
        arbitrary()
    }
}

/// The name of a document.
#[derive(Clone, Debug, PartialEq, Eq)]
pub struct DocumentName(String);

impl View for DocumentName {
    type V = Seq<char>;

    closed spec fn view(&self) -> Seq<char> {
        self.0@
    }
}

impl DocumentName {
    /// A name with the given text, whatever it is.
    pub fn new(s: String) -> (out: Self)
        ensures
            out@ == s@,
    {
        Self(s)
    }

    /// The text of the name.
    pub fn to_string(&self) -> (out: String)
        ensures
            out@ == self@,
    {
        self.0.clone()
    }
}

impl TryFrom<String> for DocumentName {
    type Error = String;

    /// A name with the given text, which must not be empty.
    fn try_from(s: String) -> (r: Result<Self, String>)
        ensures
            match r {
                Ok(name) => s@.len() > 0 && name@ == s@,
                Err(e) => s@.len() == 0 && e@ == "empty"@,
            },
    {
        if s.as_str().is_empty() {
            Err("empty".to_owned())
        } else {
            Ok(DocumentName(s))
        }
    }
}

/// `try_from` is specified by its own contract: an error holds a string,
/// of which a specification can tell the characters and not the identity.
impl vstd::std_specs::convert::TryFromSpecImpl<String> for DocumentName {
    open spec fn obeys_try_from_spec() -> bool {
        false
    }

    open spec fn try_from_spec(v: String) -> Result<Self, String> {
        arbitrary()
    }
}

/// The name of a database.
#[derive(Clone, Debug, PartialEq, Eq)]
pub struct DatabaseName(String);

impl View for DatabaseName {
    type V = Seq<char>;

    closed spec fn view(&self) -> Seq<char> {
        self.0@
    }
}

impl DatabaseName {
    /// A name with the given text, whatever it is.
    pub fn new(s: String) -> (out: Self)
        ensures
            out@ == s@,
    {
        Self(s)
    }

    /// The text of the name.
    pub fn to_string(&self) -> (out: String)
        ensures
            out@ == self@,
    {
        self.0.clone()
    }
}

impl TryFrom<String> for DatabaseName {
    type Error = String;

    /// A name with the given text, which must not be empty.
    fn try_from(s: String) -> (r: Result<Self, String>)
        ensures
            match r {
                Ok(name) => s@.len() > 0 && name@ == s@,
                Err(e) => s@.len() == 0 && e@ == "empty"@,
            },
    {
        if s.as_str().is_empty() {
            Err("empty".to_owned())
        } else {
            Ok(DatabaseName(s))
        }
    }
}

/// `try_from` is specified by its own contract: an error holds a string,
/// of which a specification can tell the characters and not the identity.
impl vstd::std_specs::convert::TryFromSpecImpl<String> for DatabaseName {
    open spec fn obeys_try_from_spec() -> bool {
        false
    }

    open spec fn try_from_spec(v: String) -> Result<Self, String> {
        arbitrary()
    }
}

/// The name of an instance.
#[derive(Clone, Debug, PartialEq, Eq)]
pub struct InstanceName(String);

impl View for InstanceName {
    type V = Seq<char>;

    closed spec fn view(&self) -> Seq<char> {
        self.0@
    }
}

impl InstanceName {
    /// A name with the given text, whatever it is.
    pub fn new(s: String) -> (out: Self)
        ensures
            out@ == s@,
    {
        Self(s)
    }

    /// The text of the name.
    pub fn to_string(&self) -> (out: String)
        ensures
            out@ == self@,
    {
        self.0.clone()
    }
}

impl TryFrom<String> for InstanceName {
    type Error = String;

    /// A name with the given text, which must not be empty.
    fn try_from(s: String) -> (r: Result<Self, String>)
        ensures
            match r {
                Ok(name) => s@.len() > 0 && name@ == s@,
                Err(e) => s@.len() == 0 && e@ == "empty"@,
            },
    {
        if s.as_str().is_empty() {
            Err("empty".to_owned())
        } else {
            Ok(InstanceName(s))
        }
    }
}

/// `try_from` is specified by its own contract: an error holds a string,
/// of which a specification can tell the characters and not the identity.
impl vstd::std_specs::convert::TryFromSpecImpl<String> for InstanceName {
    open spec fn obeys_try_from_spec() -> bool {
        false
    }

    open spec fn try_from_spec(v: String) -> Result<Self, String> {
        arbitrary()
    }
}

/// The name of an object.
#[derive(Clone, Debug, PartialEq, Eq)]
pub struct ObjectName(String);

impl View for ObjectName {
    type V = Seq<char>;

    closed spec fn view(&self) -> Seq<char> {
        self.0@
    }
}

impl ObjectName {
    /// A name with the given text, whatever it is.
    pub fn new(s: String) -> (out: Self)
        ensures
            out@ == s@,
    {
        Self(s)
    }

    /// The text of the name.
    pub fn to_string(&self) -> (out: String)
        ensures
            out@ == self@,
    {
        self.0.clone()
    }
}

impl TryFrom<String> for ObjectName {
    type Error = String;

    /// A name with the given text, which must not be empty.
    fn try_from(s: String) -> (r: Result<Self, String>)
        ensures
            match r {
                Ok(name) => s@.len() > 0 && name@ == s@,
                Err(e) => s@.len() == 0 && e@ == "empty"@,
            },
    {
        if s.as_str().is_empty() {
            Err("empty".to_owned())
        } else {
            Ok(ObjectName(s))
        }
    }
}

/// `try_from` is specified by its own contract: an error holds a string,
/// of which a specification can tell the characters and not the identity.
impl vstd::std_specs::convert::TryFromSpecImpl<String> for ObjectName {
    open spec fn obeys_try_from_spec() -> bool {
        false
    }

    open spec fn try_from_spec(v: String) -> Result<Self, String> {
        arbitrary()
    }
}

} // verus!

//! The two error families: what parsing a resource name reports, and what
//! stops a build of the resource models.

use vstd::prelude::*;
use vstd::string::StringExecFns;

verus! {

/// Errors that can occur when parsing resource names
#[derive(Debug, Clone, PartialEq, Eq)]
pub enum ParseError {
    /// The value matches none of the accepted pattern shapes.
    InvalidPattern { value: String, expected_pattern: String },
    /// A required segment value is empty.
    MissingComponent { component: String, value: String },
    /// A segment value has a forbidden structure, such as a `/` inside it.
    InvalidComponent { component: String, component_value: String, value: String },
    /// The whole input is empty.
    EmptyValue,
    /// Any other malformed input, with the reason.
    InvalidFormat { reason: String },
}

/// A `ParseError` as mathematics.
pub enum ParseErrorModel {
    InvalidPattern { value: Seq<char>, expected_pattern: Seq<char> },
    MissingComponent { component: Seq<char>, value: Seq<char> },
    InvalidComponent { component: Seq<char>, component_value: Seq<char>, value: Seq<char> },
    EmptyValue,
    InvalidFormat { reason: Seq<char> },
}

impl View for ParseError {
    type V = ParseErrorModel;

    open spec fn view(&self) -> ParseErrorModel {
        match self {
            ParseError::InvalidPattern {
                value,
                expected_pattern,
            } => ParseErrorModel::InvalidPattern {
                value: value@,
                expected_pattern: expected_pattern@,
            },
            ParseError::MissingComponent { component, value } => ParseErrorModel::MissingComponent {
                component: component@,
                value: value@,
            },
            ParseError::InvalidComponent {
                component,
                component_value,
                value,
            } => ParseErrorModel::InvalidComponent {
                component: component@,
                component_value: component_value@,
                value: value@,
            },
            ParseError::EmptyValue => ParseErrorModel::EmptyValue,
            ParseError::InvalidFormat { reason } => ParseErrorModel::InvalidFormat {
                reason: reason@,
            },
        }
    }
}

/// The text that describes a parse error.
pub open spec fn parse_error_message(e: ParseErrorModel) -> Seq<char> {
    match e {
        ParseErrorModel::InvalidPattern { value, expected_pattern } => "Invalid pattern: got '"@
            + value + "', expected pattern '"@ + expected_pattern + "'"@,
        ParseErrorModel::MissingComponent { component, value } => "Missing required component '"@
            + component + "' in resource name '"@ + value + "'"@,
        ParseErrorModel::InvalidComponent {
            component,
            component_value,
            value,
        } => "Invalid component '"@ + component + "' value '"@ + component_value
            + "' in resource name '"@ + value + "'"@,
        ParseErrorModel::EmptyValue => "Resource name is empty"@,
        ParseErrorModel::InvalidFormat { reason } => "Invalid resource name format: "@ + reason,
    }
}

impl ParseError {
    /// The text that describes this error.
    pub fn message(&self) -> (out: String)
        ensures
            out@ == parse_error_message(self@),
    {
        match self {
            ParseError::InvalidPattern { value, expected_pattern } => {
                let mut out = "Invalid pattern: got '".to_owned();
                out.append(value.as_str());
                out.append("', expected pattern '");
                out.append(expected_pattern.as_str());
                out.append("'");
                out
            },
            ParseError::MissingComponent { component, value } => {
                let mut out = "Missing required component '".to_owned();
                out.append(component.as_str());
                out.append("' in resource name '");
                out.append(value.as_str());
                out.append("'");
                out
            },
            ParseError::InvalidComponent { component, component_value, value } => {
                let mut out = "Invalid component '".to_owned();
                out.append(component.as_str());
                out.append("' value '");
                out.append(component_value.as_str());
                out.append("' in resource name '");
                out.append(value.as_str());
                out.append("'");
                out
            },
            ParseError::EmptyValue => "Resource name is empty".to_owned(),
            ParseError::InvalidFormat { reason } => {
                let mut out = "Invalid resource name format: ".to_owned();
                out.append(reason.as_str());
                out
            },
        }
    }
}

/// Errors that stop a build of the resource models. Any of them aborts the
/// whole run before output is written.
#[derive(Debug, Clone, PartialEq, Eq)]
pub enum BuildError {
    /// A resource annotation lacks a required field.
    MissingRequiredField { field: String, message_name: String },
    /// A resource annotation declares no pattern.
    NoPatternDeclared { message_name: String },
    /// One resource type is declared twice.
    DuplicateResourceType { resource_type: String, first_file: String, second_file: String },
    /// Two patterns of one resource give the same branch id.
    AmbiguousPatternPrefix { resource_type: String, branch_id: String },
    /// A pattern of a resource has no variable.
    PatternWithoutVariable { resource_type: String, pattern: String },
    /// A pattern of a resource names one variable twice.
    RepeatedVariable { resource_type: String, pattern: String, variable: String },
    /// A pattern of a resource gives names that cannot be read back: one of
    /// its variables is followed by something other than a `/` or the end.
    UnreadablePattern { resource_type: String, pattern: String },
    /// The parameter string names an option that does not exist.
    UnknownOption { key: String },
    /// The parameter string gives an option a value it cannot take.
    InvalidOptionValue { key: String, value: String },
}

/// A `BuildError` as mathematics.
pub enum BuildErrorModel {
    MissingRequiredField { field: Seq<char>, message_name: Seq<char> },
    NoPatternDeclared { message_name: Seq<char> },
    DuplicateResourceType {
        resource_type: Seq<char>,
        first_file: Seq<char>,
        second_file: Seq<char>,
    },
    AmbiguousPatternPrefix { resource_type: Seq<char>, branch_id: Seq<char> },
    PatternWithoutVariable { resource_type: Seq<char>, pattern: Seq<char> },
    RepeatedVariable { resource_type: Seq<char>, pattern: Seq<char>, variable: Seq<char> },
    UnreadablePattern { resource_type: Seq<char>, pattern: Seq<char> },
    UnknownOption { key: Seq<char> },
    InvalidOptionValue { key: Seq<char>, value: Seq<char> },
}

impl View for BuildError {
    type V = BuildErrorModel;

    open spec fn view(&self) -> BuildErrorModel {
        match self {
            BuildError::MissingRequiredField {
                field,
                message_name,
            } => BuildErrorModel::MissingRequiredField {
                field: field@,
                message_name: message_name@,
            },
            BuildError::NoPatternDeclared { message_name } => BuildErrorModel::NoPatternDeclared {
                message_name: message_name@,
            },
            BuildError::DuplicateResourceType {
                resource_type,
                first_file,
                second_file,
            } => BuildErrorModel::DuplicateResourceType {
                resource_type: resource_type@,
                first_file: first_file@,
                second_file: second_file@,
            },
            BuildError::AmbiguousPatternPrefix {
                resource_type,
                branch_id,
            } => BuildErrorModel::AmbiguousPatternPrefix {
                resource_type: resource_type@,
                branch_id: branch_id@,
            },
            BuildError::PatternWithoutVariable {
                resource_type,
                pattern,
            } => BuildErrorModel::PatternWithoutVariable {
                resource_type: resource_type@,
                pattern: pattern@,
            },
            BuildError::RepeatedVariable {
                resource_type,
                pattern,
                variable,
            } => BuildErrorModel::RepeatedVariable {
                resource_type: resource_type@,
                pattern: pattern@,
                variable: variable@,
            },
            BuildError::UnreadablePattern {
                resource_type,
                pattern,
            } => BuildErrorModel::UnreadablePattern {
                resource_type: resource_type@,
                pattern: pattern@,
            },
            BuildError::UnknownOption { key } => BuildErrorModel::UnknownOption { key: key@ },
            BuildError::InvalidOptionValue { key, value } => BuildErrorModel::InvalidOptionValue {
                key: key@,
                value: value@,
            },
        }
    }
}

/// The text that describes a build error.
pub open spec fn build_error_message(e: BuildErrorModel) -> Seq<char> {
    match e {
        BuildErrorModel::MissingRequiredField {
            field,
            message_name,
        } => "Resource annotation missing required '"@ + field + "' field in message '"@
            + message_name + "'"@,
        BuildErrorModel::NoPatternDeclared {
            message_name,
        } => "Resource annotation missing required 'pattern' field in message '"@ + message_name
            + "'"@,
        BuildErrorModel::DuplicateResourceType {
            resource_type,
            first_file,
            second_file,
        } => "Duplicate resource type '"@ + resource_type + "' declared in '"@ + first_file
            + "' and '"@ + second_file + "'"@,
        BuildErrorModel::AmbiguousPatternPrefix {
            resource_type,
            branch_id,
        } => "Ambiguous pattern prefix '"@ + branch_id + "' in resource type '"@ + resource_type
            + "'"@,
        BuildErrorModel::PatternWithoutVariable { resource_type, pattern } => "Pattern '"@ + pattern
            + "' of resource type '"@ + resource_type + "' has no variable"@,
        BuildErrorModel::RepeatedVariable { resource_type, pattern, variable } => "Pattern '"@
            + pattern + "' of resource type '"@ + resource_type + "' names variable '"@ + variable
            + "' twice"@,
        BuildErrorModel::UnreadablePattern { resource_type, pattern } => "Pattern '"@ + pattern
            + "' of resource type '"@ + resource_type + "' cannot be read back"@,
        BuildErrorModel::UnknownOption { key } => "Unknown option: "@ + key,
        BuildErrorModel::InvalidOptionValue { key, value } => "Invalid value '"@ + value
            + "' for option '"@ + key + "'"@,
    }
}

impl BuildError {
    /// The text that describes this error.
    pub fn message(&self) -> (out: String)
        ensures
            out@ == build_error_message(self@),
    {
        match self {
            BuildError::MissingRequiredField { field, message_name } => {
                let mut out = "Resource annotation missing required '".to_owned();
                out.append(field.as_str());
                out.append("' field in message '");
                out.append(message_name.as_str());
                out.append("'");
                out
            },
            BuildError::NoPatternDeclared { message_name } => {
                let mut out =
                    "Resource annotation missing required 'pattern' field in message '".to_owned();
                out.append(message_name.as_str());
                out.append("'");
                out
            },
            BuildError::DuplicateResourceType { resource_type, first_file, second_file } => {
                let mut out = "Duplicate resource type '".to_owned();
                out.append(resource_type.as_str());
                out.append("' declared in '");
                out.append(first_file.as_str());
                out.append("' and '");
                out.append(second_file.as_str());
                out.append("'");
                out
            },
            BuildError::AmbiguousPatternPrefix { resource_type, branch_id } => {
                let mut out = "Ambiguous pattern prefix '".to_owned();
                out.append(branch_id.as_str());
                out.append("' in resource type '");
                out.append(resource_type.as_str());
                out.append("'");
                out
            },
            BuildError::PatternWithoutVariable { resource_type, pattern } => {
                let mut out = "Pattern '".to_owned();
                out.append(pattern.as_str());
                out.append("' of resource type '");
                out.append(resource_type.as_str());
                out.append("' has no variable");
                out
            },
            BuildError::RepeatedVariable { resource_type, pattern, variable } => {
                let mut out = "Pattern '".to_owned();
                out.append(pattern.as_str());
                out.append("' of resource type '");
                out.append(resource_type.as_str());
                out.append("' names variable '");
                out.append(variable.as_str());
                out.append("' twice");
                out
            },
            BuildError::UnreadablePattern { resource_type, pattern } => {
                let mut out = "Pattern '".to_owned();
                out.append(pattern.as_str());
                out.append("' of resource type '");
                out.append(resource_type.as_str());
                out.append("' cannot be read back");
                out
            },
            BuildError::UnknownOption { key } => {
                let mut out = "Unknown option: ".to_owned();
                out.append(key.as_str());
                out
            },
            BuildError::InvalidOptionValue { key, value } => {
                let mut out = "Invalid value '".to_owned();
                out.append(value.as_str());
                out.append("' for option '");
                out.append(key.as_str());
                out.append("'");
                out
            },
        }
    }
}

/// A result as mathematics: the view of what it holds.
pub open spec fn result_view<T: View, E: View>(r: Result<T, E>) -> Result<T::V, E::V> {
    match r {
        Ok(t) => Ok(t@),
        Err(e) => Err(e@),
    }
}

/// A result as mathematics, where what it holds on success is a container:
/// the deep view of that, or the view of the error.
pub open spec fn result_deep_view<T: DeepView, E: View>(r: Result<T, E>) -> Result<T::V, E::V> {
    match r {
        Ok(t) => Ok(t.deep_view()),
        Err(e) => Err(e@),
    }
}

} // verus!

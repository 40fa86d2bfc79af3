//! The emitter: the source text of the typed resource names of a registry.
//!
//! For every branch of a resource it emits a struct with one field for each
//! variable, a constructor, the accessors, a canonical formatter and a parser;
//! for a resource with several branches also the tagged union of its branches;
//! for every reference the accessors of the resource types that it names. The
//! text depends on the registry and the options alone.

use crate::emit_text::{
    escape, escape_exec, fill, fill_each, fill_each_exec, fill_exec, lemma_fill_each_holds,
    lemma_fill_two, lemma_occurs_between, lemma_occurs_in_wider, occurs_in, parts2, parts3,
    parts6, snake, snake_exec, type_ident, type_ident_exec,
};
use crate::error::BuildError;
use crate::model::{
    build_registry, Reference, ReferenceModel, Registry, RegistryModel, Resource, ResourceModel,
};
use crate::options::{OptionsModel, ResourceCodegenOptions};
use crate::parse_descriptor::{ParsedResource, ParsedResourceReference};
use crate::pattern::{
    variable_names, variable_names_upto, ComponentModel, ResourcePattern, ResourcePatternComponent,
};
use crate::resource_id::covered_variables;
use crate::text::str_eq;
use vstd::prelude::*;
use vstd::string::StringExecFns;

verus! {

/// High-level interface for emitting Rust code
pub struct EmitRust;

/// One line for each of the first `k` components: the `literal` template
/// filled in with the escaped text of a literal, the `variable` template with
/// the name of a variable.
pub open spec fn component_lines_upto(
    literal: Seq<Seq<char>>,
    variable: Seq<Seq<char>>,
    cs: Seq<ComponentModel>,
    k: int,
) -> Seq<char>
    decreases k,
{
    if k <= 0 || k > cs.len() {
        Seq::empty()
    } else {
        component_lines_upto(literal, variable, cs, k - 1) + match cs[k - 1] {
            ComponentModel::Literal(text) => fill(literal, escape(text)),
            ComponentModel::Variable(name) => fill(variable, name),
        }
    }
}

/// One line for each component.
pub open spec fn component_lines(
    literal: Seq<Seq<char>>,
    variable: Seq<Seq<char>>,
    cs: Seq<ComponentModel>,
) -> Seq<char> {
    component_lines_upto(literal, variable, cs, cs.len() as int)
}

/// One line for each component.
pub fn component_lines_exec(
    literal: &Vec<&str>,
    variable: &Vec<&str>,
    cs: &ResourcePattern,
) -> (out: String)
    ensures
        out@ == component_lines(literal.deep_view(), variable.deep_view(), cs@.components),
{
    let mut out = String::new();
    let mut k: usize = 0;
    while k < cs.components.len()
        invariant
            k <= cs.components@.len(),
            out@ == component_lines_upto(
                literal.deep_view(),
                variable.deep_view(),
                cs@.components,
                k as int,
            ),
        decreases cs.components@.len() - k,
    {
        proof {
            assert(cs@.components[k as int] == cs.components@[k as int]@);
        }
        let line = match &cs.components[k] {
            ResourcePatternComponent::Literal(text) => fill_exec(
                literal,
                escape_exec(text.as_str()).as_str(),
            ),
            ResourcePatternComponent::Variable(name) => fill_exec(variable, name.as_str()),
        };
        out.append(line.as_str());
        k += 1;
    }
    out
}

/// The declaration of the struct of one branch: a `String` field for each
/// variable.
pub open spec fn struct_text(
    name: Seq<char>,
    pattern: Seq<char>,
    vars: Seq<Seq<char>>,
) -> Seq<char> {
    "/// `"@
        + escape(pattern)
        + "`\n#[derive(Debug, Clone, PartialEq, Eq, Hash)]\npub struct "@
        + name
        + " {\n"@
        + fill_each(seq!["    pub "@, ": String,\n"@], vars)
        + "}\n\n"@
}

/// The typed parent accessor of a nested branch: the parent's name, with the
/// values of this name in its fields; `fields` is the list of the fields. The
/// values were checked when this name was made, and are not checked again.
pub open spec fn parent_text(parent: Seq<char>, fields: Seq<char>) -> Seq<char> {
    "\n    pub fn parent(&self) -> "@
        + parent
        + " {\n        "@
        + parent
        + " { "@
        + fields
        + "}\n    }\n"@
}

/// The template of the comparison that the emitted wildcard test makes of one
/// variable.
pub open spec fn wildcard_parts() -> Seq<Seq<char>> {
    seq![" || self."@, " == \"-\""@]
}

/// The template of the checks that the emitted validation makes of one
/// variable: first that its value is not empty, then that it holds no `/`.
pub open spec fn validation_parts() -> Seq<Seq<char>> {
    seq![
        "        if self."@,
        ".is_empty() {\n            return Err(ParseError::MissingComponent {\n                component: \""@,
        "\".to_string(),\n                value: self.to_string(),\n            });\n        }\n        if self."@,
        ".contains('/') {\n            return Err(ParseError::InvalidComponent {\n                component: \""@,
        "\".to_string(),\n                component_value: self."@,
        ".clone(),\n                value: self.to_string(),\n            });\n        }\n"@,
    ]
}

/// The constructor of one branch: it takes one value for each variable, in
/// order, and gives the name only if the validation finds nothing wrong with
/// it.
pub open spec fn constructor_text(vars: Seq<Seq<char>>) -> Seq<char> {
    "    pub fn new("@
        + fill_each(seq![""@, ": impl Into<String>, "@], vars)
        + ") -> Result<Self, ParseError> {\n        let name = Self { "@
        + fill_each(seq![""@, ": "@, ".into(), "@], vars)
        + "};\n        name.validate()?;\n        Ok(name)\n    }\n"@
}

/// The wildcard test of one branch: it compares the value of every variable
/// with `-`.
pub open spec fn wildcard_test_text(vars: Seq<Seq<char>>) -> Seq<char> {
    "    pub fn contains_wildcard(&self) -> bool {\n        false"@
        + fill_each(wildcard_parts(), vars)
        + "\n    }\n"@
}

/// The validation of one branch: for each variable, in order, it refuses a
/// value that is empty, and then a value that holds a `/`.
pub open spec fn validation_text(vars: Seq<Seq<char>>) -> Seq<char> {
    "    pub fn validate(&self) -> Result<(), ParseError> {\n"@
        + fill_each(validation_parts(), vars)
        + "        Ok(())\n    }\n"@
}

/// The inherent impl of the struct of one branch: the constructor, the
/// accessors and the validation; `parent` is the parent accessor, or empty.
pub open spec fn impl_text(
    name: Seq<char>,
    pattern: Seq<char>,
    resource_type: Seq<char>,
    vars: Seq<Seq<char>>,
    parent: Seq<char>,
) -> Seq<char> {
    "impl "@
        + name
        + " {\n    pub const PATTERN: &'static str = \""@
        + escape(pattern)
        + "\";\n    pub const RESOURCE_TYPE: &'static str = \""@
        + escape(resource_type)
        + "\";\n\n"@
        + constructor_text(vars)
        + "\n    pub fn resource_type(&self) -> &'static str {\n        Self::RESOURCE_TYPE\n    }\n\n"@
        + wildcard_test_text(vars)
        + "\n"@
        + validation_text(vars)
        + parent
        + "}\n\n"@
}

/// The canonical formatter of one branch: the literal text of the pattern as it
/// stands, and the value of each variable in its slot.
pub open spec fn display_text(name: Seq<char>, cs: Seq<ComponentModel>) -> Seq<char> {
    "impl std::fmt::Display for "@
        + name
        + " {\n    fn fmt(&self, f: &mut std::fmt::Formatter<'_>) -> std::fmt::Result {\n"@
        + component_lines(
            seq!["        f.write_str(\""@, "\")?;\n"@],
            seq!["        f.write_str(&self."@, ")?;\n"@],
            cs,
        )
        + "        Ok(())\n    }\n}\n\n"@
}

/// The parser of one branch: every literal has to stand at its place, and every
/// variable takes the text up to the next `/`, which must not be empty.
pub open spec fn from_str_text(
    name: Seq<char>,
    cs: Seq<ComponentModel>,
    vars: Seq<Seq<char>>,
) -> Seq<char> {
    "impl std::str::FromStr for "@
        + name
        + " {\n    type Err = ParseError;\n\n    fn from_str(s: &str) -> Result<Self, Self::Err> {\n        if s.is_empty() {\n            return Err(ParseError::EmptyValue);\n        }\n        let mismatch = || ParseError::InvalidPattern {\n            value: s.to_string(),\n            expected_pattern: Self::PATTERN.to_string(),\n        };\n        let rest = s;\n"@
        + component_lines(
            seq!["        let rest = rest.strip_prefix(\""@, "\").ok_or_else(mismatch)?;\n"@],
            seq![
                "        let end = rest.find('/').unwrap_or(rest.len());\n        if end == 0 {\n            return Err(mismatch());\n        }\n        let "@,
                " = rest[..end].to_string();\n        let rest = &rest[end..];\n"@,
            ],
            cs,
        )
        + "        if !rest.is_empty() {\n            return Err(mismatch());\n        }\n        Ok(Self { "@
        + fill_each(seq![""@, ", "@], vars)
        + "})\n    }\n}\n\n"@
}

/// The tagged union of a resource with several branches, one variant for each
/// branch, and its parser, which tries the branches in the order of
/// declaration.
pub open spec fn wrapper_text(
    name: Seq<char>,
    resource_type: Seq<char>,
    canonical: Seq<char>,
    function: Seq<char>,
    ids: Seq<Seq<char>>,
) -> Seq<char> {
    "#[derive(Debug, Clone, PartialEq, Eq, Hash)]\npub enum "@
        + name
        + " {\n"@
        + fill_each(seq!["    "@, "("@, name + "),\n"@], ids)
        + "}\n\nimpl "@
        + name
        + " {\n    pub fn resource_type(&self) -> &'static str {\n        \""@
        + escape(resource_type)
        + "\"\n    }\n\n    pub fn contains_wildcard(&self) -> bool {\n        match self {\n"@
        + fill_each(seq!["            Self::"@, "(name) => name.contains_wildcard(),\n"@], ids)
        + "        }\n    }\n\n    pub fn validate(&self) -> Result<(), ParseError> {\n        match self {\n"@
        + fill_each(seq!["            Self::"@, "(name) => name.validate(),\n"@], ids)
        + "        }\n    }\n}\n\nimpl std::fmt::Display for "@
        + name
        + " {\n    fn fmt(&self, f: &mut std::fmt::Formatter<'_>) -> std::fmt::Result {\n        match self {\n"@
        + fill_each(
            seq!["            Self::"@, "(name) => std::fmt::Display::fmt(name, f),\n"@],
            ids,
        )
        + "        }\n    }\n}\n\nimpl std::str::FromStr for "@
        + name
        + " {\n    type Err = ParseError;\n\n    fn from_str(s: &str) -> Result<Self, Self::Err> {\n        if s.is_empty() {\n            return Err(ParseError::EmptyValue);\n        }\n"@
        + fill_each(
            seq![
                "        if let Ok(name) = s.parse::<"@,
                name + ">() {\n            return Ok(Self::"@,
                "(name));\n        }\n"@,
            ],
            ids,
        )
        + "        Err(ParseError::InvalidPattern {\n            value: s.to_string(),\n            expected_pattern: \""@
        + escape(canonical)
        + "\".to_string(),\n        })\n    }\n}\n\npub fn parse_"@
        + function
        + "_resource_name(s: &str) -> Result<"@
        + name
        + ", ParseError> {\n    s.parse()\n}\n\n"@
}

/// The accessor of a resource type that a field names; `role` tells the
/// referenced type from the child type.
pub open spec fn type_accessor_text(
    base: Seq<char>,
    role: Seq<char>,
    resource_type: Seq<char>,
) -> Seq<char> {
    "pub fn "@
        + base
        + "_"@
        + role
        + "() -> &'static str {\n    \""@
        + escape(resource_type)
        + "\"\n}\n\n"@
}

/// The typed accessor of a field whose resource type is declared: the field's
/// value, parsed as a name of that resource.
pub open spec fn typed_accessor_text(base: Seq<char>, target: Seq<char>) -> Seq<char> {
    "pub fn parse_"@
        + base
        + "(value: &str) -> Result<"@
        + target
        + ", ParseError> {\n    value.parse()\n}\n\n"@
}

/// The head of an output unit; `support` is the path of the module that holds
/// `ParseError`.
pub open spec fn header_text(support: Seq<char>) -> Seq<char> {
    "// @generated\nuse "@
        + support
        + "::ParseError;\n\n"@
}

/// The declaration of the struct of one branch: a `String` field for each
/// variable.
pub fn struct_text_exec(name: &str, pattern: &str, vars: &Vec<&str>) -> (out: String)
    ensures
        out@ == struct_text(name@, pattern@, vars.deep_view()),
{
    let mut out = "/// `".to_owned();
    out.append(escape_exec(pattern).as_str());
    out.append("`\n#[derive(Debug, Clone, PartialEq, Eq, Hash)]\npub struct ");
    out.append(name);
    out.append(" {\n");
    out.append(fill_each_exec(&parts2("    pub ", ": String,\n"), vars).as_str());
    out.append("}\n\n");
    out
}

/// The typed parent accessor of a nested branch: the parent's name, with the
/// values of this name in its fields; `fields` is the list of the fields. The
/// values were checked when this name was made, and are not checked again.
pub fn parent_text_exec(parent: &str, fields: &str) -> (out: String)
    ensures
        out@ == parent_text(parent@, fields@),
{
    let mut out = "\n    pub fn parent(&self) -> ".to_owned();
    out.append(parent);
    out.append(" {\n        ");
    out.append(parent);
    out.append(" { ");
    out.append(fields);
    out.append("}\n    }\n");
    out
}

/// The constructor of one branch: it takes one value for each variable, in
/// order, and gives the name only if the validation finds nothing wrong with
/// it.
pub fn constructor_text_exec(vars: &Vec<&str>) -> (out: String)
    ensures
        out@ == constructor_text(vars.deep_view()),
{
    let mut out = "    pub fn new(".to_owned();
    out.append(fill_each_exec(&parts2("", ": impl Into<String>, "), vars).as_str());
    out.append(") -> Result<Self, ParseError> {\n        let name = Self { ");
    out.append(fill_each_exec(&parts3("", ": ", ".into(), "), vars).as_str());
    out.append("};\n        name.validate()?;\n        Ok(name)\n    }\n");
    out
}

/// The wildcard test of one branch: it compares the value of every variable
/// with `-`.
pub fn wildcard_test_text_exec(vars: &Vec<&str>) -> (out: String)
    ensures
        out@ == wildcard_test_text(vars.deep_view()),
{
    let mut out = "    pub fn contains_wildcard(&self) -> bool {\n        false".to_owned();
    out.append(fill_each_exec(&parts2(" || self.", " == \"-\""), vars).as_str());
    out.append("\n    }\n");
    out
}

/// The validation of one branch: for each variable, in order, it refuses a
/// value that is empty, and then a value that holds a `/`.
pub fn validation_text_exec(vars: &Vec<&str>) -> (out: String)
    ensures
        out@ == validation_text(vars.deep_view()),
{
    let mut out = "    pub fn validate(&self) -> Result<(), ParseError> {\n".to_owned();
    out.append(
        fill_each_exec(
            &parts6(
                "        if self.",
                ".is_empty() {\n            return Err(ParseError::MissingComponent {\n                component: \"",
                "\".to_string(),\n                value: self.to_string(),\n            });\n        }\n        if self.",
                ".contains('/') {\n            return Err(ParseError::InvalidComponent {\n                component: \"",
                "\".to_string(),\n                component_value: self.",
                ".clone(),\n                value: self.to_string(),\n            });\n        }\n",
            ),
            vars,
        ).as_str(),
    );
    out.append("        Ok(())\n    }\n");
    out
}

/// The inherent impl of the struct of one branch: the constructor, the
/// accessors and the validation; `parent` is the parent accessor, or empty.
pub fn impl_text_exec(
    name: &str,
    pattern: &str,
    resource_type: &str,
    vars: &Vec<&str>,
    parent: &str,
) -> (out: String)
    ensures
        out@ == impl_text(name@, pattern@, resource_type@, vars.deep_view(), parent@),
{
    let mut out = "impl ".to_owned();
    out.append(name);
    out.append(" {\n    pub const PATTERN: &'static str = \"");
    out.append(escape_exec(pattern).as_str());
    out.append("\";\n    pub const RESOURCE_TYPE: &'static str = \"");
    out.append(escape_exec(resource_type).as_str());
    out.append("\";\n\n");
    out.append(constructor_text_exec(vars).as_str());
    out.append("\n    pub fn resource_type(&self) -> &'static str {\n        Self::RESOURCE_TYPE\n    }\n\n");
    out.append(wildcard_test_text_exec(vars).as_str());
    out.append("\n");
    out.append(validation_text_exec(vars).as_str());
    out.append(parent);
    out.append("}\n\n");
    out
}

/// The canonical formatter of one branch: the literal text of the pattern as it
/// stands, and the value of each variable in its slot.
pub fn display_text_exec(name: &str, cs: &ResourcePattern) -> (out: String)
    ensures
        out@ == display_text(name@, cs@.components),
{
    let mut out = "impl std::fmt::Display for ".to_owned();
    out.append(name);
    out.append(" {\n    fn fmt(&self, f: &mut std::fmt::Formatter<'_>) -> std::fmt::Result {\n");
    out.append(
        component_lines_exec(
            &parts2("        f.write_str(\"", "\")?;\n"),
            &parts2("        f.write_str(&self.", ")?;\n"),
            cs,
        ).as_str(),
    );
    out.append("        Ok(())\n    }\n}\n\n");
    out
}

/// The parser of one branch: every literal has to stand at its place, and every
/// variable takes the text up to the next `/`, which must not be empty.
pub fn from_str_text_exec(name: &str, cs: &ResourcePattern, vars: &Vec<&str>) -> (out: String)
    ensures
        out@ == from_str_text(name@, cs@.components, vars.deep_view()),
{
    let mut out = "impl std::str::FromStr for ".to_owned();
    out.append(name);
    out.append(" {\n    type Err = ParseError;\n\n    fn from_str(s: &str) -> Result<Self, Self::Err> {\n        if s.is_empty() {\n            return Err(ParseError::EmptyValue);\n        }\n        let mismatch = || ParseError::InvalidPattern {\n            value: s.to_string(),\n            expected_pattern: Self::PATTERN.to_string(),\n        };\n        let rest = s;\n");
    out.append(
        component_lines_exec(
            &parts2("        let rest = rest.strip_prefix(\"", "\").ok_or_else(mismatch)?;\n"),
            &parts2(
                "        let end = rest.find('/').unwrap_or(rest.len());\n        if end == 0 {\n            return Err(mismatch());\n        }\n        let ",
                " = rest[..end].to_string();\n        let rest = &rest[end..];\n",
            ),
            cs,
        ).as_str(),
    );
    out.append("        if !rest.is_empty() {\n            return Err(mismatch());\n        }\n        Ok(Self { ");
    out.append(fill_each_exec(&parts2("", ", "), vars).as_str());
    out.append("})\n    }\n}\n\n");
    out
}

/// The tagged union of a resource with several branches, one variant for each
/// branch, and its parser, which tries the branches in the order of
/// declaration.
pub fn wrapper_text_exec(
    name: &str,
    resource_type: &str,
    canonical: &str,
    function: &str,
    ids: &Vec<&str>,
) -> (out: String)
    ensures
        out@ == wrapper_text(name@, resource_type@, canonical@, function@, ids.deep_view()),
{
    let mut variant_close = name.to_owned();
    variant_close.append("),\n");
    let mut parse_middle = name.to_owned();
    parse_middle.append(">() {\n            return Ok(Self::");
    let mut out = "#[derive(Debug, Clone, PartialEq, Eq, Hash)]\npub enum ".to_owned();
    out.append(name);
    out.append(" {\n");
    out.append(fill_each_exec(&parts3("    ", "(", variant_close.as_str()), ids).as_str());
    out.append("}\n\nimpl ");
    out.append(name);
    out.append(" {\n    pub fn resource_type(&self) -> &'static str {\n        \"");
    out.append(escape_exec(resource_type).as_str());
    out.append("\"\n    }\n\n    pub fn contains_wildcard(&self) -> bool {\n        match self {\n");
    out.append(
        fill_each_exec(
            &parts2("            Self::", "(name) => name.contains_wildcard(),\n"),
            ids,
        ).as_str(),
    );
    out.append("        }\n    }\n\n    pub fn validate(&self) -> Result<(), ParseError> {\n        match self {\n");
    out.append(
        fill_each_exec(&parts2("            Self::", "(name) => name.validate(),\n"), ids).as_str(),
    );
    out.append("        }\n    }\n}\n\nimpl std::fmt::Display for ");
    out.append(name);
    out.append(" {\n    fn fmt(&self, f: &mut std::fmt::Formatter<'_>) -> std::fmt::Result {\n        match self {\n");
    out.append(
        fill_each_exec(
            &parts2("            Self::", "(name) => std::fmt::Display::fmt(name, f),\n"),
            ids,
        ).as_str(),
    );
    out.append("        }\n    }\n}\n\nimpl std::str::FromStr for ");
    out.append(name);
    out.append(" {\n    type Err = ParseError;\n\n    fn from_str(s: &str) -> Result<Self, Self::Err> {\n        if s.is_empty() {\n            return Err(ParseError::EmptyValue);\n        }\n");
    out.append(
        fill_each_exec(
            &parts3(
                "        if let Ok(name) = s.parse::<",
                parse_middle.as_str(),
                "(name));\n        }\n",
            ),
            ids,
        ).as_str(),
    );
    out.append("        Err(ParseError::InvalidPattern {\n            value: s.to_string(),\n            expected_pattern: \"");
    out.append(escape_exec(canonical).as_str());
    out.append("\".to_string(),\n        })\n    }\n}\n\npub fn parse_");
    out.append(function);
    out.append("_resource_name(s: &str) -> Result<");
    out.append(name);
    out.append(", ParseError> {\n    s.parse()\n}\n\n");
    out
}

/// The accessor of a resource type that a field names; `role` tells the
/// referenced type from the child type.
pub fn type_accessor_text_exec(base: &str, role: &str, resource_type: &str) -> (out: String)
    ensures
        out@ == type_accessor_text(base@, role@, resource_type@),
{
    let mut out = "pub fn ".to_owned();
    out.append(base);
    out.append("_");
    out.append(role);
    out.append("() -> &'static str {\n    \"");
    out.append(escape_exec(resource_type).as_str());
    out.append("\"\n}\n\n");
    out
}

/// The typed accessor of a field whose resource type is declared: the field's
/// value, parsed as a name of that resource.
pub fn typed_accessor_text_exec(base: &str, target: &str) -> (out: String)
    ensures
        out@ == typed_accessor_text(base@, target@),
{
    let mut out = "pub fn parse_".to_owned();
    out.append(base);
    out.append("(value: &str) -> Result<");
    out.append(target);
    out.append(", ParseError> {\n    value.parse()\n}\n\n");
    out
}

/// The head of an output unit; `support` is the path of the module that holds
/// `ParseError`.
pub fn header_text_exec(support: &str) -> (out: String)
    ensures
        out@ == header_text(support@),
{
    let mut out = "// @generated\nuse ".to_owned();
    out.append(support);
    out.append("::ParseError;\n\n");
    out
}

/// Wildcard in emitted code: the wildcard test that is emitted for a branch
/// compares the value of every variable of the branch with `-`.
pub proof fn lemma_wildcard_test_covers(vars: Seq<Seq<char>>, k: int)
    requires
        0 <= k < vars.len(),
    ensures
        occurs_in(wildcard_test_text(vars), " || self."@ + vars[k] + " == \"-\""@),
{
    lemma_fill_each_holds(wildcard_parts(), vars, k, vars.len() as int);
    lemma_fill_two(" || self."@, " == \"-\""@, vars[k]);
    lemma_occurs_in_wider(
        "    pub fn contains_wildcard(&self) -> bool {\n        false"@,
        fill_each(wildcard_parts(), vars),
        "\n    }\n"@,
        fill(wildcard_parts(), vars[k]),
    );
}

/// Validation in emitted code: the validation that is emitted for a branch
/// makes its checks of every variable of the branch.
pub proof fn lemma_validation_covers(vars: Seq<Seq<char>>, k: int)
    requires
        0 <= k < vars.len(),
    ensures
        occurs_in(validation_text(vars), fill(validation_parts(), vars[k])),
{
    lemma_fill_each_holds(validation_parts(), vars, k, vars.len() as int);
    lemma_occurs_in_wider(
        "    pub fn validate(&self) -> Result<(), ParseError> {\n"@,
        fill_each(validation_parts(), vars),
        "        Ok(())\n    }\n"@,
        fill(validation_parts(), vars[k]),
    );
}

/// Construction in emitted code: the constructor that is emitted for a branch
/// runs the validation on the name that it has made, and gives the name only
/// after it.
pub proof fn lemma_constructor_validates(vars: Seq<Seq<char>>)
    ensures
        occurs_in(
            constructor_text(vars),
            "};\n        name.validate()?;\n        Ok(name)\n    }\n"@,
        ),
{
    let head = "    pub fn new("@ + fill_each(seq![""@, ": impl Into<String>, "@], vars)
        + ") -> Result<Self, ParseError> {\n        let name = Self { "@ + fill_each(
        seq![""@, ": "@, ".into(), "@],
        vars,
    );
    lemma_occurs_between(
        head,
        "};\n        name.validate()?;\n        Ok(name)\n    }\n"@,
        Seq::empty(),
    );
    assert(head + "};\n        name.validate()?;\n        Ok(name)\n    }\n"@ + Seq::<char>::empty()
        =~= constructor_text(vars));
}

/// The name of the type that stands for a resource: its struct where it has
/// one branch, the tagged union of its branches where it has several.
pub open spec fn wrapper_name(m: ResourceModel) -> Seq<char> {
    type_ident(m.resource_type) + "ResourceName"@
}

/// The name of the struct of branch `b`: the wrapper's name, with the branch
/// id before it where the resource has several branches.
pub open spec fn branch_struct_name(m: ResourceModel, b: int) -> Seq<char> {
    if m.branches.len() >= 2 {
        m.branches[b].id + wrapper_name(m)
    } else {
        wrapper_name(m)
    }
}

/// The first `k` fields of a parent's name, each with the value of the
/// variable of this name that stands at its place; nothing where either has
/// fewer than `k` variables.
pub open spec fn parent_fields_upto(
    parent_vars: Seq<Seq<char>>,
    vars: Seq<Seq<char>>,
    k: int,
) -> Seq<char>
    decreases k,
{
    if k <= 0 || k > parent_vars.len() || k > vars.len() {
        Seq::empty()
    } else {
        parent_fields_upto(parent_vars, vars, k - 1) + parent_vars[k - 1] + ": self."@ + vars[k
            - 1] + ".clone(), "@
    }
}

/// The parent accessor of branch `b` of resource `i`; empty where the branch
/// is not nested.
pub open spec fn parent_accessor(reg: RegistryModel, i: int, b: int) -> Seq<char> {
    let branch = reg.resources[i].branches[b];
    match branch.parent {
        Some(link) => if 0 <= link.resource < reg.resources.len()
            && reg.resources[link.resource].branches.len() > 0 {
            parent_text(
                branch_struct_name(reg.resources[link.resource], 0),
                parent_fields_upto(
                    variable_names(reg.resources[link.resource].branches[0].pattern.components),
                    variable_names(branch.pattern.components),
                    variable_names_upto(branch.pattern.components, link.components).len() as int,
                ),
            )
        } else {
            Seq::empty()
        },
        None => Seq::empty(),
    }
}

/// All that is emitted for branch `b` of resource `i`.
pub open spec fn branch_text(reg: RegistryModel, i: int, b: int) -> Seq<char> {
    let m = reg.resources[i];
    let branch = m.branches[b];
    let name = branch_struct_name(m, b);
    let vars = variable_names(branch.pattern.components);
    struct_text(name, branch.pattern.pattern, vars) + impl_text(
        name,
        branch.pattern.pattern,
        m.resource_type,
        vars,
        parent_accessor(reg, i, b),
    ) + display_text(name, branch.pattern.components) + from_str_text(
        name,
        branch.pattern.components,
        vars,
    )
}

/// All that is emitted for the first `k` branches of resource `i`.
pub open spec fn branch_texts_upto(reg: RegistryModel, i: int, k: int) -> Seq<char>
    decreases k,
{
    if k <= 0 || k > reg.resources[i].branches.len() {
        Seq::empty()
    } else {
        branch_texts_upto(reg, i, k - 1) + branch_text(reg, i, k - 1)
    }
}

/// The ids of the branches of a resource, in order.
pub open spec fn ids_of(m: ResourceModel) -> Seq<Seq<char>> {
    Seq::new(m.branches.len(), |b: int| m.branches[b].id)
}

/// The tagged union of a resource with several branches; nothing for a
/// resource with one branch.
pub open spec fn wrapper_of(m: ResourceModel) -> Seq<char> {
    if m.branches.len() >= 2 {
        wrapper_text(
            wrapper_name(m),
            m.resource_type,
            m.branches[0].pattern.pattern,
            snake(type_ident(m.resource_type)),
            ids_of(m),
        )
    } else {
        Seq::empty()
    }
}

/// All that is emitted for resource `i`: its branches in the order of
/// declaration, then the tagged union.
pub open spec fn resource_text(reg: RegistryModel, i: int) -> Seq<char> {
    branch_texts_upto(reg, i, reg.resources[i].branches.len() as int) + wrapper_of(
        reg.resources[i],
    )
}

/// Whether what is declared in `source` belongs to the output for `file`;
/// without a file everything does.
pub open spec fn selected(file: Option<Seq<char>>, source: Seq<char>) -> bool {
    match file {
        Some(f) => f == source,
        None => true,
    }
}

/// What is emitted for the selected ones of the first `k` resources.
pub open spec fn resources_text_upto(reg: RegistryModel, file: Option<Seq<char>>, k: int) -> Seq<
    char,
>
    decreases k,
{
    if k <= 0 || k > reg.resources.len() {
        Seq::empty()
    } else {
        resources_text_upto(reg, file, k - 1) + if selected(
            file,
            reg.resources[k - 1].source_file,
        ) {
            resource_text(reg, k - 1)
        } else {
            Seq::empty()
        }
    }
}

/// The start of the names of the accessors of a reference: the message and the
/// field, in snake case.
pub open spec fn reference_base(r: ReferenceModel) -> Seq<char> {
    snake(r.containing_message) + "_"@ + snake(r.field_name)
}

/// All that is emitted for a reference: an accessor for each type that it
/// names and, with `extensions`, a typed accessor where the referenced type
/// is declared.
pub open spec fn reference_text(reg: RegistryModel, r: ReferenceModel, extensions: bool) -> Seq<
    char,
> {
    let base = reference_base(r);
    (match r.resource_type {
        Some(t) => type_accessor_text(base, "resource_type"@, t),
        None => Seq::empty(),
    }) + (match r.child_type {
        Some(t) => type_accessor_text(base, "child_type"@, t),
        None => Seq::empty(),
    }) + (match r.target {
        Some(t) => if extensions && 0 <= t < reg.resources.len() {
            typed_accessor_text(base, wrapper_name(reg.resources[t]))
        } else {
            Seq::empty()
        },
        None => Seq::empty(),
    })
}

/// What is emitted for the selected ones of the first `k` references.
pub open spec fn references_text_upto(
    reg: RegistryModel,
    file: Option<Seq<char>>,
    extensions: bool,
    k: int,
) -> Seq<char>
    decreases k,
{
    if k <= 0 || k > reg.references.len() {
        Seq::empty()
    } else {
        references_text_upto(reg, file, extensions, k - 1) + if selected(
            file,
            reg.references[k - 1].source_file,
        ) {
            reference_text(reg, reg.references[k - 1], extensions)
        } else {
            Seq::empty()
        }
    }
}

/// The path of the module that holds the error type of the emitted parsers:
/// the module prefix of the options, or this crate where that is empty.
pub open spec fn support_path(options: OptionsModel) -> Seq<char> {
    if options.module_prefix.len() == 0 {
        "resource_codegen"@
    } else {
        options.module_prefix
    }
}

/// One output unit: the head, the selected resources in the order of the
/// registry, the selected references in the order of the registry.
pub open spec fn unit_text(
    reg: RegistryModel,
    file: Option<Seq<char>>,
    options: OptionsModel,
) -> Seq<char> {
    header_text(support_path(options)) + resources_text_upto(
        reg,
        file,
        reg.resources.len() as int,
    ) + references_text_upto(reg, file, options.generate_extensions, reg.references.len() as int)
}

/// Whether `file` declares one of the first `k` resources.
pub open spec fn declares_resource_upto(reg: RegistryModel, file: Seq<char>, k: int) -> bool
    decreases k,
{
    if k <= 0 || k > reg.resources.len() {
        false
    } else {
        declares_resource_upto(reg, file, k - 1) || reg.resources[k - 1].source_file == file
    }
}

/// Whether `file` declares one of the first `k` references.
pub open spec fn declares_reference_upto(reg: RegistryModel, file: Seq<char>, k: int) -> bool
    decreases k,
{
    if k <= 0 || k > reg.references.len() {
        false
    } else {
        declares_reference_upto(reg, file, k - 1) || reg.references[k - 1].source_file == file
    }
}

/// Whether `file` declares a resource or a reference of the registry.
pub open spec fn declares(reg: RegistryModel, file: Seq<char>) -> bool {
    declares_resource_upto(reg, file, reg.resources.len() as int) || declares_reference_upto(
        reg,
        file,
        reg.references.len() as int,
    )
}

/// The first `n` fields of a parent's name, each with the value of the
/// variable of this name that stands at its place.
pub fn parent_fields_exec(parent_vars: &Vec<&str>, vars: &Vec<&str>, n: usize) -> (out: String)
    ensures
        out@ == parent_fields_upto(parent_vars.deep_view(), vars.deep_view(), n as int),
{
    let mut out = String::new();
    if n > parent_vars.len() || n > vars.len() {
        return out;
    }
    let mut k: usize = 0;
    while k < n
        invariant
            k <= n,
            n <= parent_vars@.len(),
            n <= vars@.len(),
            out@ == parent_fields_upto(parent_vars.deep_view(), vars.deep_view(), k as int),
        decreases n - k,
    {
        proof {
            assert(parent_vars.deep_view()[k as int] == parent_vars@[k as int]@);
            assert(vars.deep_view()[k as int] == vars@[k as int]@);
        }
        out.append(parent_vars[k]);
        out.append(": self.");
        out.append(vars[k]);
        out.append(".clone(), ");
        k += 1;
    }
    out
}

/// Whether what is declared in `source` belongs to the output for `file`.
pub fn is_selected(file: Option<&str>, source: &str) -> (b: bool)
    ensures
        b == selected(file.deep_view(), source@),
{
    match file {
        Some(f) => str_eq(f, source),
        None => true,
    }
}

/// The name of the type that stands for a resource.
pub fn wrapper_name_exec(resource: &Resource) -> (out: String)
    ensures
        out@ == wrapper_name(resource@),
{
    let mut out = type_ident_exec(resource.resource_type.as_str());
    out.append("ResourceName");
    out
}

/// The name of the struct of branch `b`.
pub fn branch_struct_name_exec(resource: &Resource, b: usize) -> (out: String)
    requires
        b < resource.branches@.len(),
    ensures
        out@ == branch_struct_name(resource@, b as int),
{
    if resource.branches.len() >= 2 {
        proof {
            assert(resource@.branches[b as int] == resource.branches@[b as int]@);
        }
        let mut out = resource.branches[b].id.clone();
        out.append(wrapper_name_exec(resource).as_str());
        out
    } else {
        wrapper_name_exec(resource)
    }
}

impl EmitRust {
    /// An emitter. It holds no state.
    pub fn new() -> Self {
        Self
    }

    /// Emit a complete Rust module for the given resources and references:
    /// the registry of just these is built, and all of it is emitted.
    pub fn emit_module(
        &self,
        resources: &[ParsedResource],
        references: &[ParsedResourceReference],
        options: &ResourceCodegenOptions,
    ) -> (r: Result<String, BuildError>)
        ensures
            match build_registry(resources.deep_view(), references.deep_view()) {
                Ok(reg) => r matches Ok(text) && text@ == unit_text(reg, None, options@),
                Err(e) => r matches Err(x) && x@ == e,
            },
    {
        match Registry::build(resources, references) {
            Ok(registry) => Ok(self.emit_unit(&registry, None, options)),
            Err(e) => Err(e),
        }
    }

    /// Emit individual resource type: the registry of just this resource is
    /// built, and what stands for the resource is emitted.
    pub fn emit_resource(&self, resource: &ParsedResource) -> (r: Result<String, BuildError>)
        ensures
            match build_registry(seq![resource@], Seq::empty()) {
                Ok(reg) => r matches Ok(text) && text@ == resource_text(reg, 0),
                Err(e) => r matches Err(x) && x@ == e,
            },
    {
        let mut resources: Vec<ParsedResource> = Vec::new();
        resources.push(resource.duplicate());
        let references: Vec<ParsedResourceReference> = Vec::new();
        proof {
            assert(resources.deep_view() =~= seq![resource@]);
            assert(references.deep_view() =~= Seq::empty());
        }
        match Registry::build(resources.as_slice(), references.as_slice()) {
            Ok(registry) => Ok(self.emit_resource_model(&registry, 0)),
            Err(e) => Err(e),
        }
    }

    /// Emit one output unit of a registry: for `file`, or for all of it.
    pub fn emit_unit(
        &self,
        registry: &Registry,
        file: Option<&str>,
        options: &ResourceCodegenOptions,
    ) -> (out: String)
        ensures
            out@ == unit_text(registry@, file.deep_view(), options@),
    {
        let mut out = if options.module_prefix.as_str().is_empty() {
            header_text_exec("resource_codegen")
        } else {
            header_text_exec(options.module_prefix.as_str())
        };
        out.append(self.emit_resources(registry, file).as_str());
        out.append(self.emit_references(registry, file, options.generate_extensions).as_str());
        out
    }

    /// Emit the selected resources of a registry.
    pub fn emit_resources(&self, registry: &Registry, file: Option<&str>) -> (out: String)
        ensures
            out@ == resources_text_upto(
                registry@,
                file.deep_view(),
                registry@.resources.len() as int,
            ),
    {
        let mut out = String::new();
        let mut k: usize = 0;
        while k < registry.resources.len()
            invariant
                k <= registry.resources@.len(),
                out@ == resources_text_upto(registry@, file.deep_view(), k as int),
            decreases registry.resources@.len() - k,
        {
            proof {
                assert(registry@.resources[k as int] == registry.resources@[k as int]@);
            }
            let text = if is_selected(file, registry.resources[k].source_file.as_str()) {
                self.emit_resource_model(registry, k)
            } else {
                String::new()
            };
            out.append(text.as_str());
            k += 1;
        }
        out
    }

    /// Emit the selected references of a registry.
    pub fn emit_references(
        &self,
        registry: &Registry,
        file: Option<&str>,
        extensions: bool,
    ) -> (out: String)
        ensures
            out@ == references_text_upto(
                registry@,
                file.deep_view(),
                extensions,
                registry@.references.len() as int,
            ),
    {
        let mut out = String::new();
        let mut k: usize = 0;
        while k < registry.references.len()
            invariant
                k <= registry.references@.len(),
                out@ == references_text_upto(registry@, file.deep_view(), extensions, k as int),
            decreases registry.references@.len() - k,
        {
            proof {
                assert(registry@.references[k as int] == registry.references@[k as int]@);
            }
            let text = if is_selected(file, registry.references[k].source_file.as_str()) {
                self.emit_reference(registry, &registry.references[k], extensions)
            } else {
                String::new()
            };
            out.append(text.as_str());
            k += 1;
        }
        out
    }

    /// Emit what stands for one reference.
    pub fn emit_reference(
        &self,
        registry: &Registry,
        reference: &Reference,
        extensions: bool,
    ) -> (out: String)
        ensures
            out@ == reference_text(registry@, reference@, extensions),
    {
        let mut base = snake_exec(reference.containing_message.as_str());
        base.append("_");
        base.append(snake_exec(reference.field_name.as_str()).as_str());
        let mut out = match &reference.resource_type {
            Some(t) => type_accessor_text_exec(base.as_str(), "resource_type", t.as_str()),
            None => String::new(),
        };
        let child = match &reference.child_type {
            Some(t) => type_accessor_text_exec(base.as_str(), "child_type", t.as_str()),
            None => String::new(),
        };
        out.append(child.as_str());
        let typed = match reference.target {
            Some(t) => {
                if extensions && t < registry.resources.len() {
                    proof {
                        assert(registry@.resources[t as int] == registry.resources@[t as int]@);
                    }
                    typed_accessor_text_exec(
                        base.as_str(),
                        wrapper_name_exec(&registry.resources[t]).as_str(),
                    )
                } else {
                    String::new()
                }
            },
            None => String::new(),
        };
        out.append(typed.as_str());
        out
    }

    /// Emit what stands for resource `i` of a registry.
    pub fn emit_resource_model(&self, registry: &Registry, i: usize) -> (out: String)
        requires
            i < registry@.resources.len(),
        ensures
            out@ == resource_text(registry@, i as int),
    {
        let resource = &registry.resources[i];
        proof {
            assert(registry@.resources[i as int] == resource@);
        }
        let mut out = String::new();
        let mut b: usize = 0;
        while b < resource.branches.len()
            invariant
                b <= resource.branches@.len(),
                i < registry@.resources.len(),
                registry@.resources[i as int] == resource@,
                out@ == branch_texts_upto(registry@, i as int, b as int),
            decreases resource.branches@.len() - b,
        {
            out.append(self.emit_branch(registry, i, b).as_str());
            b += 1;
        }
        let wrapper = if resource.branches.len() >= 2 {
            let mut ids: Vec<&str> = Vec::new();
            let mut k: usize = 0;
            while k < resource.branches.len()
                invariant
                    k <= resource.branches@.len(),
                    ids@.len() == k,
                    forall|j: int|
                        0 <= j < k ==> (#[trigger] ids@[j])@ == resource.branches@[j].id@,
                decreases resource.branches@.len() - k,
            {
                ids.push(resource.branches[k].id.as_str());
                k += 1;
            }
            proof {
                assert(ids.deep_view() =~= ids_of(resource@));
                assert(resource@.branches[0] == resource.branches@[0]@);
            }
            wrapper_text_exec(
                wrapper_name_exec(resource).as_str(),
                resource.resource_type.as_str(),
                resource.branches[0].pattern.pattern.as_str(),
                snake_exec(type_ident_exec(resource.resource_type.as_str()).as_str()).as_str(),
                &ids,
            )
        } else {
            String::new()
        };
        out.append(wrapper.as_str());
        out
    }

    /// Emit what stands for branch `b` of resource `i` of a registry.
    pub fn emit_branch(&self, registry: &Registry, i: usize, b: usize) -> (out: String)
        requires
            i < registry@.resources.len(),
            b < registry@.resources[i as int].branches.len(),
        ensures
            out@ == branch_text(registry@, i as int, b as int),
    {
        let resource = &registry.resources[i];
        proof {
            assert(registry@.resources[i as int] == resource@);
        }
        let branch = &resource.branches[b];
        proof {
            assert(resource@.branches[b as int] == branch@);
        }
        let name = branch_struct_name_exec(resource, b);
        let vars = branch.pattern.variables();
        let parent = match branch.parent {
            Some(link) => {
                let usable = link.resource < registry.resources.len();
                if usable && registry.resources[link.resource].branches.len() > 0 {
                    let parent = &registry.resources[link.resource];
                    proof {
                        assert(registry@.resources[link.resource as int] == parent@);
                        assert(parent@.branches[0] == parent.branches@[0]@);
                    }
                    parent_text_exec(
                        branch_struct_name_exec(parent, 0).as_str(),
                        parent_fields_exec(
                            &parent.branches[0].pattern.variables(),
                            &vars,
                            covered_variables(&branch.pattern, link.components),
                        ).as_str(),
                    )
                } else {
                    String::new()
                }
            },
            None => String::new(),
        };
        let mut out = struct_text_exec(name.as_str(), branch.pattern.pattern.as_str(), &vars);
        out.append(
            impl_text_exec(
                name.as_str(),
                branch.pattern.pattern.as_str(),
                resource.resource_type.as_str(),
                &vars,
                parent.as_str(),
            ).as_str(),
        );
        out.append(display_text_exec(name.as_str(), &branch.pattern).as_str());
        out.append(from_str_text_exec(name.as_str(), &branch.pattern, &vars).as_str());
        out
    }
}

impl Default for EmitRust {
    fn default() -> Self {
        Self::new()
    }
}

} // verus!

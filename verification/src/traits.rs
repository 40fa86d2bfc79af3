//! Traits for working with resource names

use crate::text::{chars_of, has_prefix, has_prefix_exec, has_suffix, has_suffix_exec};
use vstd::prelude::*;
use vstd::string::StringSliceAdditionalSpecFns;

verus! {

/// Trait implemented by all generated resource name types
pub trait ResourceName {
    /// The characters of this resource name. An implementation states them
    /// here; `as_str` then has to return exactly these.
    open spec fn name(&self) -> Seq<char> {
        arbitrary()
    }

    /// Get the pattern string for this resource type
    fn pattern() -> &'static str where Self: Sized;

    /// Get the string representation of this resource name
    fn as_str(&self) -> (s: &str)
        ensures
            s@ == self.name(),
    ;
}

/// Trait for types that can be validated as resource names
pub trait Validate {
    type Error;

    /// Validate that this resource name is well-formed
    fn validate(&self) -> Result<(), Self::Error>;
}

/// Trait for types that can be formatted as resource names
pub trait Format: ResourceName {
    /// Format this resource name for display
    fn format(&self) -> (out: String)
        ensures
            out@ == self.name(),
    {
        self.as_str().to_owned()
    }
}

/// Extension trait providing utility methods for resource names
pub trait ResourceNameExt: ResourceName {
    /// Check if this resource name is empty
    fn is_empty(&self) -> (empty: bool)
        ensures
            empty == (self.name().len() == 0),
    {
        self.as_str().is_empty()
    }

    /// Get the length of this resource name, in bytes of its UTF-8 form
    fn len(&self) -> (n: usize)
        ensures
            n == vstd::utf8::encode_utf8(self.name()).len() as usize,
    {
        let s = self.as_str();
        proof {
            assert(s.spec_bytes() == vstd::utf8::encode_utf8(s@));
        }
        s.len()
    }

    /// Check if this resource name starts with a prefix
    fn starts_with(&self, prefix: &str) -> (b: bool)
        ensures
            b == has_prefix(self.name(), prefix@),
    {
        let s = chars_of(self.as_str());
        let p = chars_of(prefix);
        has_prefix_exec(s.as_slice(), p.as_slice())
    }

    /// Check if this resource name ends with a suffix
    fn ends_with(&self, suffix: &str) -> (b: bool)
        ensures
            b == has_suffix(self.name(), suffix@),
    {
        let s = chars_of(self.as_str());
        let p = chars_of(suffix);
        has_suffix_exec(s.as_slice(), p.as_slice())
    }
}

// Blanket implementation for all ResourceName types
impl<T: ResourceName> ResourceNameExt for T {

}

// Blanket implementation of Format for ResourceName types
impl<T: ResourceName> Format for T {

}

} // verus!

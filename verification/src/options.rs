//! The options of a generation run and the parameter string that sets them.

use crate::error::{result_view, BuildError, BuildErrorModel};
use crate::text::{
    chars_eq, chars_of, find_char, find_char_exec, lemma_chars_deep_view, slice_chars, split,
    split_chars, string_from_chars,
};
use vstd::prelude::*;

verus! {

/// Configuration options for the resource code generator
#[derive(Debug, Clone)]
pub struct ResourceCodegenOptions {
    /// Whether to generate extension traits for prost types
    pub generate_extensions: bool,
    /// Output file suffix (e.g. "_resources.rs")
    pub file_suffix: String,
    /// Module prefix for generated code
    pub module_prefix: String,
}

/// The options as mathematics.
pub struct OptionsModel {
    pub generate_extensions: bool,
    pub file_suffix: Seq<char>,
    pub module_prefix: Seq<char>,
}

impl View for ResourceCodegenOptions {
    type V = OptionsModel;

    open spec fn view(&self) -> OptionsModel {
        OptionsModel {
            generate_extensions: self.generate_extensions,
            file_suffix: self.file_suffix@,
            module_prefix: self.module_prefix@,
        }
    }
}

/// The options of a run whose parameter string is empty.
pub open spec fn default_options() -> OptionsModel {
    OptionsModel {
        generate_extensions: true,
        file_suffix: "_resources.rs"@,
        module_prefix: Seq::empty(),
    }
}

/// The options after one comma-separated entry of the parameter string.
///
/// An entry is `key=value`, split at its first `=`, or a bare key. An empty
/// entry changes nothing. `generate_extensions` takes `true` or `false`, and
/// bare it means `true`; `file_suffix` and `module_prefix` take any text. Every
/// other key is unknown.
pub open spec fn apply_entry(o: OptionsModel, entry: Seq<char>) -> Result<
    OptionsModel,
    BuildErrorModel,
> {
    let eq = find_char(entry, '=', 0);
    if eq < entry.len() {
        let key = entry.subrange(0, eq);
        let value = entry.subrange(eq + 1, entry.len() as int);
        if key == "generate_extensions"@ {
            if value == "true"@ {
                Ok(
                    OptionsModel {
                        generate_extensions: true,
                        file_suffix: o.file_suffix,
                        module_prefix: o.module_prefix,
                    },
                )
            } else if value == "false"@ {
                Ok(
                    OptionsModel {
                        generate_extensions: false,
                        file_suffix: o.file_suffix,
                        module_prefix: o.module_prefix,
                    },
                )
            } else {
                Err(BuildErrorModel::InvalidOptionValue { key, value })
            }
        } else if key == "file_suffix"@ {
            Ok(
                OptionsModel {
                    generate_extensions: o.generate_extensions,
                    file_suffix: value,
                    module_prefix: o.module_prefix,
                },
            )
        } else if key == "module_prefix"@ {
            Ok(
                OptionsModel {
                    generate_extensions: o.generate_extensions,
                    file_suffix: o.file_suffix,
                    module_prefix: value,
                },
            )
        } else {
            Err(BuildErrorModel::UnknownOption { key })
        }
    } else if entry.len() == 0 {
        Ok(o)
    } else if entry == "generate_extensions"@ {
        Ok(
            OptionsModel {
                generate_extensions: true,
                file_suffix: o.file_suffix,
                module_prefix: o.module_prefix,
            },
        )
    } else {
        Err(BuildErrorModel::UnknownOption { key: entry })
    }
}

/// The options after the first `k` entries, or the first error among them.
pub open spec fn options_upto(entries: Seq<Seq<char>>, k: int) -> Result<
    OptionsModel,
    BuildErrorModel,
>
    decreases k,
{
    if k <= 0 {
        Ok(default_options())
    } else {
        match options_upto(entries, k - 1) {
            Ok(o) => apply_entry(o, entries[k - 1]),
            Err(e) => Err(e),
        }
    }
}

/// What a parameter string means: its entries, applied from left to right to
/// the default options, up to the first entry that is in error.
pub open spec fn parameter_options(parameter: Seq<char>) -> Result<OptionsModel, BuildErrorModel> {
    let entries = split(parameter, ',');
    options_upto(entries, entries.len() as int)
}

impl Default for ResourceCodegenOptions {
    fn default() -> (out: Self)
        ensures
            out@ == default_options(),
    {
        Self {
            generate_extensions: true,
            file_suffix: "_resources.rs".to_owned(),
            module_prefix: String::new(),
        }
    }
}

impl ResourceCodegenOptions {
    /// Apply one entry of the parameter string to these options.
    pub fn apply(self, entry: &[char]) -> (r: Result<Self, BuildError>)
        ensures
            result_view(r) == apply_entry(self@, entry@),
    {
        let eq = find_char_exec(entry, '=', 0);
        if eq < entry.len() {
            let key = slice_chars(entry, 0, eq);
            let value = slice_chars(entry, eq + 1, entry.len());
            if chars_eq(key.as_slice(), chars_of("generate_extensions").as_slice()) {
                if chars_eq(value.as_slice(), chars_of("true").as_slice()) {
                    Ok(
                        Self {
                            generate_extensions: true,
                            file_suffix: self.file_suffix,
                            module_prefix: self.module_prefix,
                        },
                    )
                } else if chars_eq(value.as_slice(), chars_of("false").as_slice()) {
                    Ok(
                        Self {
                            generate_extensions: false,
                            file_suffix: self.file_suffix,
                            module_prefix: self.module_prefix,
                        },
                    )
                } else {
                    Err(
                        BuildError::InvalidOptionValue {
                            key: string_from_chars(key.as_slice()),
                            value: string_from_chars(value.as_slice()),
                        },
                    )
                }
            } else if chars_eq(key.as_slice(), chars_of("file_suffix").as_slice()) {
                Ok(
                    Self {
                        generate_extensions: self.generate_extensions,
                        file_suffix: string_from_chars(value.as_slice()),
                        module_prefix: self.module_prefix,
                    },
                )
            } else if chars_eq(key.as_slice(), chars_of("module_prefix").as_slice()) {
                Ok(
                    Self {
                        generate_extensions: self.generate_extensions,
                        file_suffix: self.file_suffix,
                        module_prefix: string_from_chars(value.as_slice()),
                    },
                )
            } else {
                Err(BuildError::UnknownOption { key: string_from_chars(key.as_slice()) })
            }
        } else if entry.len() == 0 {
            Ok(self)
        } else if chars_eq(entry, chars_of("generate_extensions").as_slice()) {
            Ok(
                Self {
                    generate_extensions: true,
                    file_suffix: self.file_suffix,
                    module_prefix: self.module_prefix,
                },
            )
        } else {
            Err(BuildError::UnknownOption { key: string_from_chars(entry) })
        }
    }

    /// Parse options from protoc parameter string
    pub fn from_parameter(parameter: &str) -> (r: Result<Self, BuildError>)
        ensures
            result_view(r) == parameter_options(parameter@),
    {
        let text = chars_of(parameter);
        let entries = split_chars(text.as_slice(), ',');
        let mut options = Self::default();
        let mut k: usize = 0;
        while k < entries.len()
            invariant
                k <= entries@.len(),
                entries.deep_view() == split(parameter@, ','),
                options_upto(entries.deep_view(), k as int) == Ok::<OptionsModel, BuildErrorModel>(
                    options@,
                ),
            decreases entries@.len() - k,
        {
            proof {
                lemma_chars_deep_view(entries@[k as int]);
            }
            match options.apply(entries[k].as_slice()) {
                Ok(next) => {
                    options = next;
                },
                Err(e) => {
                    proof {
                        lemma_options_error_stays(
                            entries.deep_view(),
                            k + 1,
                            entries@.len() as int,
                        );
                    }
                    return Err(e);
                },
            }
            k += 1;
        }
        Ok(options)
    }
}

/// Once an entry is in error, later entries change nothing.
pub proof fn lemma_options_error_stays(entries: Seq<Seq<char>>, k: int, n: int)
    requires
        0 <= k <= n,
        options_upto(entries, k) is Err,
    ensures
        options_upto(entries, n) == options_upto(entries, k),
    decreases n - k,
{
    if k < n {
        lemma_options_error_stays(entries, k, n - 1);
    }
}

} // verus!

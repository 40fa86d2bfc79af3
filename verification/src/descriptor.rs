//! The invariants of a declared resource, and the check that holds a
//! descriptor to them: its type is not empty, it has a pattern, every pattern
//! has a variable and names no variable twice, and no two patterns have the
//! same components.

use crate::error::{BuildError, BuildErrorModel};
use crate::model::{
    branch_id, branch_id_of, distinct, find_repeat, first_repeat, lemma_first_repeat,
};
use crate::parse_descriptor::{ParsedResource, ParsedResourceModel};
use crate::pattern::{variable_names, PatternModel, ResourcePattern, ResourcePatternComponent};
use crate::text::str_eq;
use vstd::prelude::*;

verus! {

/// What is wrong with one pattern of a resource, if anything: it has no
/// variable, or it names a variable twice (the first name that comes again is
/// reported).
pub open spec fn pattern_error(resource_type: Seq<char>, p: PatternModel) -> Option<
    BuildErrorModel,
> {
    let names = variable_names(p.components);
    if names.len() == 0 {
        Some(BuildErrorModel::PatternWithoutVariable { resource_type, pattern: p.pattern })
    } else {
        match first_repeat(names) {
            Some(pair) => Some(
                BuildErrorModel::RepeatedVariable {
                    resource_type,
                    pattern: p.pattern,
                    variable: names[pair.1],
                },
            ),
            None => None,
        }
    }
}

/// What is wrong with the first of the first `k` patterns that is in error.
pub open spec fn pattern_error_upto(
    resource_type: Seq<char>,
    patterns: Seq<PatternModel>,
    k: int,
) -> Option<BuildErrorModel>
    decreases k,
{
    if k <= 0 || k > patterns.len() {
        None
    } else {
        match pattern_error_upto(resource_type, patterns, k - 1) {
            Some(e) => Some(e),
            None => pattern_error(resource_type, patterns[k - 1]),
        }
    }
}

/// One of the first `k` patterns has the components of pattern `j`.
pub open spec fn components_among(patterns: Seq<PatternModel>, j: int, k: int) -> bool
    decreases k,
{
    if k <= 0 || k > patterns.len() {
        false
    } else {
        components_among(patterns, j, k - 1) || patterns[k - 1].components
            == patterns[j].components
    }
}

/// The index of the first of the first `k` patterns that has the components
/// of a pattern before it.
pub open spec fn repeated_pattern_upto(patterns: Seq<PatternModel>, k: int) -> Option<int>
    decreases k,
{
    if k <= 0 || k > patterns.len() {
        None
    } else {
        match repeated_pattern_upto(patterns, k - 1) {
            Some(j) => Some(j),
            None => if components_among(patterns, k - 1, k - 1) {
                Some(k - 1)
            } else {
                None
            },
        }
    }
}

/// What is wrong with a descriptor, if anything. In this order: its type is
/// empty; it has no pattern; one of its patterns, the first such, has no
/// variable or names a variable twice; one of its patterns has the components
/// of a pattern before it, which makes their branches ambiguous.
pub open spec fn descriptor_error(r: ParsedResourceModel) -> Option<BuildErrorModel> {
    if r.resource_type.len() == 0 {
        Some(
            BuildErrorModel::MissingRequiredField { field: "type"@, message_name: r.message_name },
        )
    } else if r.patterns.len() == 0 {
        Some(BuildErrorModel::NoPatternDeclared { message_name: r.message_name })
    } else {
        match pattern_error_upto(r.resource_type, r.patterns, r.patterns.len() as int) {
            Some(e) => Some(e),
            None => match repeated_pattern_upto(r.patterns, r.patterns.len() as int) {
                Some(j) => Some(
                    BuildErrorModel::AmbiguousPatternPrefix {
                        resource_type: r.resource_type,
                        branch_id: branch_id(r.patterns[j].components),
                    },
                ),
                None => None,
            },
        }
    }
}

impl ParsedResourceModel {
    /// The invariant of a descriptor: the type is not empty; there is a
    /// pattern; no two patterns have the same components; every pattern has a
    /// variable, and its variable names are pairwise distinct.
    pub open spec fn regular(self) -> bool {
        &&& self.resource_type.len() > 0
        &&& self.patterns.len() > 0
        &&& forall|i: int, j: int|
            0 <= i < j < self.patterns.len() ==> (#[trigger] self.patterns[i]).components != (
            #[trigger] self.patterns[j]).components
        &&& forall|i: int|
            0 <= i < self.patterns.len() ==> variable_names(
                (#[trigger] self.patterns[i]).components,
            ).len() > 0
        &&& forall|i: int|
            0 <= i < self.patterns.len() ==> distinct(
                variable_names((#[trigger] self.patterns[i]).components),
            )
    }
}

/// Once a pattern is in error, later patterns change nothing.
pub proof fn lemma_pattern_error_stays(
    resource_type: Seq<char>,
    patterns: Seq<PatternModel>,
    k: int,
    n: int,
)
    requires
        0 <= k <= n <= patterns.len(),
        pattern_error_upto(resource_type, patterns, k) is Some,
    ensures
        pattern_error_upto(resource_type, patterns, n) == pattern_error_upto(
            resource_type,
            patterns,
            k,
        ),
    decreases n - k,
{
    if k < n {
        lemma_pattern_error_stays(resource_type, patterns, k, n - 1);
    }
}

/// Once a repeated pattern is found, later patterns change nothing.
pub proof fn lemma_repeated_pattern_stays(patterns: Seq<PatternModel>, k: int, n: int)
    requires
        0 <= k <= n <= patterns.len(),
        repeated_pattern_upto(patterns, k) is Some,
    ensures
        repeated_pattern_upto(patterns, n) == repeated_pattern_upto(patterns, k),
    decreases n - k,
{
    if k < n {
        lemma_repeated_pattern_stays(patterns, k, n - 1);
    }
}

/// Where none of the first `k` patterns is in error, each of them is without
/// error.
pub proof fn lemma_pattern_errors(resource_type: Seq<char>, patterns: Seq<PatternModel>, k: int)
    requires
        0 <= k <= patterns.len(),
        pattern_error_upto(resource_type, patterns, k) is None,
    ensures
        forall|i: int| 0 <= i < k ==> pattern_error(resource_type, #[trigger] patterns[i]) is None,
    decreases k,
{
    if k > 0 {
        lemma_pattern_errors(resource_type, patterns, k - 1);
    }
}

/// What `components_among` says: some pattern before `k` has the components
/// of pattern `j`.
pub proof fn lemma_components_among(patterns: Seq<PatternModel>, j: int, k: int)
    requires
        0 <= k <= patterns.len(),
    ensures
        components_among(patterns, j, k) <==> exists|i: int|
            0 <= i < k && (#[trigger] patterns[i]).components == patterns[j].components,
    decreases k,
{
    if k > 0 {
        lemma_components_among(patterns, j, k - 1);
        if components_among(patterns, j, k) {
            if !components_among(patterns, j, k - 1) {
                assert(patterns[k - 1].components == patterns[j].components);
            }
        }
    }
}

/// Where none of the first `k` patterns repeats one before it, their
/// components are pairwise different.
pub proof fn lemma_no_repeated_pattern(patterns: Seq<PatternModel>, k: int)
    requires
        0 <= k <= patterns.len(),
        repeated_pattern_upto(patterns, k) is None,
    ensures
        forall|i: int, j: int|
            0 <= i < j < k ==> (#[trigger] patterns[i]).components != (
            #[trigger] patterns[j]).components,
    decreases k,
{
    if k > 0 {
        lemma_no_repeated_pattern(patterns, k - 1);
        lemma_components_among(patterns, k - 1, k - 1);
    }
}

/// A descriptor without error is regular.
pub proof fn lemma_descriptor_regular(r: ParsedResourceModel)
    requires
        descriptor_error(r) is None,
    ensures
        r.regular(),
{
    let n = r.patterns.len() as int;
    lemma_pattern_errors(r.resource_type, r.patterns, n);
    lemma_no_repeated_pattern(r.patterns, n);
    assert forall|i: int| 0 <= i < n implies variable_names(
        (#[trigger] r.patterns[i]).components,
    ).len() > 0 && distinct(variable_names(r.patterns[i].components)) by {
        assert(pattern_error(r.resource_type, r.patterns[i]) is None);
        let names = variable_names(r.patterns[i].components);
        lemma_first_repeat(names, names.len() as int);
    }
}

/// A copy of each name.
pub fn owned_names(names: &Vec<&str>) -> (out: Vec<String>)
    ensures
        out.deep_view() == names.deep_view(),
{
    let mut out: Vec<String> = Vec::new();
    let mut k: usize = 0;
    while k < names.len()
        invariant
            k <= names@.len(),
            out@.len() == k,
            forall|j: int| 0 <= j < k ==> (#[trigger] out@[j])@ == names@[j]@,
        decreases names@.len() - k,
    {
        out.push(names[k].to_owned());
        k += 1;
    }
    proof {
        assert(out.deep_view() =~= names.deep_view());
    }
    out
}

impl ResourcePattern {
    /// Whether this pattern has the components of the other one.
    pub fn same_components(&self, other: &ResourcePattern) -> (same: bool)
        ensures
            same == (self@.components == other@.components),
    {
        let n = self.components.len();
        if n != other.components.len() {
            proof {
                assert(self@.components.len() != other@.components.len());
            }
            return false;
        }
        let mut k: usize = 0;
        while k < n
            invariant
                k <= n,
                n == self.components@.len(),
                n == other.components@.len(),
                forall|j: int| 0 <= j < k ==> self@.components[j] == other@.components[j],
            decreases n - k,
        {
            proof {
                assert(self@.components[k as int] == self.components@[k as int]@);
                assert(other@.components[k as int] == other.components@[k as int]@);
            }
            let same = match (&self.components[k], &other.components[k]) {
                (
                    ResourcePatternComponent::Literal(x),
                    ResourcePatternComponent::Literal(y),
                ) => str_eq(x.as_str(), y.as_str()),
                (
                    ResourcePatternComponent::Variable(x),
                    ResourcePatternComponent::Variable(y),
                ) => str_eq(x.as_str(), y.as_str()),
                _ => false,
            };
            if !same {
                return false;
            }
            k += 1;
        }
        proof {
            assert(self@.components =~= other@.components);
        }
        true
    }
}

impl ParsedResource {
    /// What is wrong with one pattern of this resource, if anything.
    pub fn check_pattern(&self, pattern: &ResourcePattern) -> (r: Result<(), BuildError>)
        ensures
            match r {
                Ok(_) => pattern_error(self@.resource_type, pattern@) is None,
                Err(e) => pattern_error(self@.resource_type, pattern@) == Some(e@),
            },
    {
        let names = owned_names(&pattern.variables());
        if names.len() == 0 {
            return Err(
                BuildError::PatternWithoutVariable {
                    resource_type: self.resource_type.clone(),
                    pattern: pattern.pattern.clone(),
                },
            );
        }
        match find_repeat(&names) {
            Some(pair) => {
                proof {
                    lemma_first_repeat(names.deep_view(), names@.len() as int);
                    assert(names.deep_view()[pair.1 as int] == names@[pair.1 as int]@);
                }
                Err(
                    BuildError::RepeatedVariable {
                        resource_type: self.resource_type.clone(),
                        pattern: pattern.pattern.clone(),
                        variable: names[pair.1].clone(),
                    },
                )
            },
            None => Ok(()),
        }
    }

    /// Hold this descriptor to its invariant.
    pub fn check(&self) -> (r: Result<(), BuildError>)
        ensures
            match r {
                Ok(_) => descriptor_error(self@) is None && self@.regular(),
                Err(e) => descriptor_error(self@) == Some(e@),
            },
    {
        if self.resource_type.as_str().is_empty() {
            return Err(
                BuildError::MissingRequiredField {
                    field: "type".to_owned(),
                    message_name: self.message_name.clone(),
                },
            );
        }
        let n = self.patterns.len();
        if n == 0 {
            return Err(BuildError::NoPatternDeclared { message_name: self.message_name.clone() });
        }
        let ghost patterns = self@.patterns;
        let mut k: usize = 0;
        while k < n
            invariant
                k <= n,
                n == self.patterns@.len(),
                0 < n,
                self@.resource_type.len() > 0,
                patterns == self@.patterns,
                pattern_error_upto(self@.resource_type, patterns, k as int) is None,
            decreases n - k,
        {
            proof {
                assert(patterns[k as int] == self.patterns@[k as int]@);
            }
            match self.check_pattern(&self.patterns[k]) {
                Ok(()) => {},
                Err(e) => {
                    proof {
                        lemma_pattern_error_stays(self@.resource_type, patterns, k + 1, n as int);
                    }
                    return Err(e);
                },
            }
            k += 1;
        }
        let mut j: usize = 0;
        while j < n
            invariant
                j <= n,
                0 < n,
                n == self.patterns@.len(),
                self@.resource_type.len() > 0,
                patterns == self@.patterns,
                pattern_error_upto(self@.resource_type, patterns, n as int) is None,
                repeated_pattern_upto(patterns, j as int) is None,
            decreases n - j,
        {
            let mut i: usize = 0;
            while i < j
                invariant
                    i <= j < n,
                    n == self.patterns@.len(),
                    self@.resource_type.len() > 0,
                    patterns == self@.patterns,
                    pattern_error_upto(self@.resource_type, patterns, n as int) is None,
                    repeated_pattern_upto(patterns, j as int) is None,
                    !components_among(patterns, j as int, i as int),
                decreases j - i,
            {
                proof {
                    assert(patterns[i as int] == self.patterns@[i as int]@);
                    assert(patterns[j as int] == self.patterns@[j as int]@);
                }
                if self.patterns[i].same_components(&self.patterns[j]) {
                    proof {
                        lemma_components_among(patterns, j as int, j as int);
                        lemma_repeated_pattern_stays(patterns, j + 1, n as int);
                    }
                    return Err(
                        BuildError::AmbiguousPatternPrefix {
                            resource_type: self.resource_type.clone(),
                            branch_id: branch_id_of(&self.patterns[j]),
                        },
                    );
                }
                i += 1;
            }
            j += 1;
        }
        proof {
            lemma_descriptor_regular(self@);
        }
        Ok(())
    }
}

} // verus!

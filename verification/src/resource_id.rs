//! Resource names as values: constructing one from the values of its
//! variables, formatting it, parsing a candidate string against the branches
//! of a resource, and going from a nested resource to its parent.

use crate::descriptor::lemma_descriptor_regular;
use crate::error::{result_view, ParseError, ParseErrorModel};
use crate::matching::{
    any_wildcard, first_invalid_upto, format_from, format_values, has_wildcard,
    lemma_first_invalid, lemma_format_then_match, lemma_match_sound, match_pattern, readable,
    valid_value, valid_values, value_at, values_error, variables_from, wildcard,
};
use crate::model::{
    build_registry, canonical_components, distinct, first_repeat, lemma_all_readable,
    lemma_first_repeat, lemma_parent, parent_upto, resource_types, same_shape, shape_error,
    shape_error_upto, shape_prefix, BranchModel, Registry, RegistryModel, Resource,
    ResourceModel,
};
use crate::parse_descriptor::{ParsedReferenceModel, ParsedResourceModel};
use crate::pattern::{
    variable_names, variable_names_upto, ComponentModel, ResourcePattern,
    ResourcePatternComponent,
};
use crate::text::chars_of;
use vstd::prelude::*;

verus! {

/// A resource name, held as the branch of the resource that it follows and
/// the values of that branch's variables, in order.
#[derive(Debug, Clone, PartialEq, Eq)]
pub struct ResourceId {
    pub branch: usize,
    pub values: Vec<String>,
}

/// A resource name as mathematics.
pub struct ResourceIdModel {
    pub branch: int,
    pub values: Seq<Seq<char>>,
}

impl View for ResourceId {
    type V = ResourceIdModel;

    open spec fn view(&self) -> ResourceIdModel {
        ResourceIdModel { branch: self.branch as int, values: self.values.deep_view() }
    }
}

impl DeepView for ResourceId {
    type V = ResourceIdModel;

    open spec fn deep_view(&self) -> ResourceIdModel {
        self@
    }
}

/// What is wrong with `values` as a name of branch `branch` of the resource,
/// if anything.
pub open spec fn id_error(m: ResourceModel, branch: int, values: Seq<Seq<char>>) -> Option<
    ParseErrorModel,
> {
    if 0 <= branch < m.branches.len() {
        values_error(m.branches[branch].pattern.components, values)
    } else {
        Some(ParseErrorModel::InvalidFormat { reason: "unknown branch"@ })
    }
}

/// The name of branch `branch` with the given values, if they can be its
/// values: no value may be empty or hold a `/`.
pub open spec fn construct_id(m: ResourceModel, branch: int, values: Seq<Seq<char>>) -> Result<
    ResourceIdModel,
    ParseErrorModel,
> {
    match id_error(m, branch, values) {
        Some(e) => Err(e),
        None => Ok(ResourceIdModel { branch, values }),
    }
}

/// The text of a name: its values in the slots of its branch's pattern.
pub open spec fn format_id(m: ResourceModel, id: ResourceIdModel) -> Seq<char> {
    if 0 <= id.branch < m.branches.len() {
        format_values(m.branches[id.branch].pattern.components, id.values)
    } else {
        Seq::empty()
    }
}

/// The name that the first of the first `k` branches to match `s` reads
/// from it.
pub open spec fn first_match_upto(branches: Seq<BranchModel>, s: Seq<char>, k: int) -> Option<
    ResourceIdModel,
>
    decreases k,
{
    if k <= 0 || k > branches.len() {
        None
    } else {
        match first_match_upto(branches, s, k - 1) {
            Some(id) => Some(id),
            None => match match_pattern(branches[k - 1].pattern.components, s) {
                Some(values) => Some(ResourceIdModel { branch: k - 1, values }),
                None => None,
            },
        }
    }
}

/// The pattern that an error names as the expected one: the canonical pattern.
pub open spec fn expected_pattern(m: ResourceModel) -> Seq<char> {
    if m.branches.len() > 0 {
        m.branches[0].pattern.pattern
    } else {
        Seq::empty()
    }
}

/// What a candidate string is read as: the branches are tried in the order of
/// declaration and the first one that matches wins.
pub open spec fn parse_id(m: ResourceModel, s: Seq<char>) -> Result<
    ResourceIdModel,
    ParseErrorModel,
> {
    if s.len() == 0 {
        Err(ParseErrorModel::EmptyValue)
    } else {
        match first_match_upto(m.branches, s, m.branches.len() as int) {
            Some(id) => Ok(id),
            None => Err(
                ParseErrorModel::InvalidPattern { value: s, expected_pattern: expected_pattern(m) },
            ),
        }
    }
}

/// The name of the parent of the name `id` of resource `resource`, with the
/// index of the parent resource: the values of the variables that the
/// parent's canonical pattern covers.
pub open spec fn parent_id(reg: RegistryModel, resource: int, id: ResourceIdModel) -> Option<
    (int, ResourceIdModel),
> {
    if 0 <= resource < reg.resources.len() && 0 <= id.branch
        < reg.resources[resource].branches.len() {
        let branch = reg.resources[resource].branches[id.branch];
        match branch.parent {
            Some(link) => {
                let covered = variable_names_upto(branch.pattern.components, link.components).len();
                if 0 <= link.resource < reg.resources.len() && covered <= id.values.len() {
                    Some(
                        (
                            link.resource,
                            ResourceIdModel { branch: 0, values: id.values.take(covered as int) },
                        ),
                    )
                } else {
                    None
                }
            },
            None => None,
        }
    } else {
        None
    }
}

impl RegistryModel {
    /// The invariant of a registry: the resource types are not empty and
    /// pairwise distinct; every resource has a branch, and its branch ids are
    /// pairwise distinct; the pattern of every branch has a variable, names
    /// no variable twice and can be read back; the parent of a branch is
    /// another resource, whose canonical pattern is a shape prefix of the
    /// branch's pattern.
    pub open spec fn wf(self) -> bool {
        &&& distinct(Seq::new(self.resources.len(), |i: int| self.resources[i].resource_type))
        &&& forall|i: int|
            0 <= i < self.resources.len() ==> (#[trigger] self.resources[i]).resource_type.len()
                > 0
        &&& forall|i: int|
            0 <= i < self.resources.len() ==> (#[trigger] self.resources[i]).branches.len() > 0
        &&& forall|i: int, b: int|
            0 <= i < self.resources.len() && 0 <= b < self.resources[i].branches.len() ==> {
                let cs = (#[trigger] self.resources[i].branches[b]).pattern.components;
                &&& variable_names(cs).len() > 0
                &&& distinct(variable_names(cs))
                &&& readable(cs)
            }
        &&& forall|i: int|
            0 <= i < self.resources.len() ==> distinct(
                Seq::new(
                    (#[trigger] self.resources[i]).branches.len(),
                    |b: int| self.resources[i].branches[b].id,
                ),
            )
        &&& forall|i: int, b: int|
            0 <= i < self.resources.len() && 0 <= b < self.resources[i].branches.len() ==> (
            #[trigger] self.resources[i].branches[b].parent matches Some(link) ==> {
                &&& 0 <= link.resource < self.resources.len()
                &&& link.resource != i
                &&& self.resources[link.resource].branches.len() > 0
                &&& link.components
                    == self.resources[link.resource].branches[0].pattern.components.len()
                &&& shape_prefix(
                    self.resources[link.resource].branches[0].pattern.components,
                    self.resources[i].branches[b].pattern.components,
                )
            })
    }
}

/// Where no resource is in error, each resource is without error.
pub proof fn lemma_shape_error(rs: Seq<ParsedResourceModel>, k: int)
    requires
        0 <= k <= rs.len(),
        shape_error_upto(rs, k) is None,
    ensures
        forall|i: int| 0 <= i < k ==> shape_error(#[trigger] rs[i]) is None,
    decreases k,
{
    if k > 0 {
        lemma_shape_error(rs, k - 1);
    }
}

/// A registry that was built is well formed.
pub proof fn lemma_built_registry_wf(
    rs: Seq<ParsedResourceModel>,
    references: Seq<ParsedReferenceModel>,
)
    requires
        build_registry(rs, references) is Ok,
    ensures
        build_registry(rs, references)->Ok_0.wf(),
{
    let reg = build_registry(rs, references)->Ok_0;
    let types = resource_types(rs);
    let canon = canonical_components(rs);
    lemma_first_repeat(types, types.len() as int);
    lemma_shape_error(rs, rs.len() as int);
    assert(Seq::new(reg.resources.len(), |i: int| reg.resources[i].resource_type) =~= types);
    assert forall|i: int| 0 <= i < reg.resources.len() implies (
    #[trigger] reg.resources[i]).resource_type.len() > 0 by {
        assert(shape_error(rs[i]) is None);
    }
    assert forall|i: int, b: int|
        0 <= i < reg.resources.len() && 0 <= b < reg.resources[i].branches.len() implies {
            let cs = (#[trigger] reg.resources[i].branches[b]).pattern.components;
            &&& variable_names(cs).len() > 0
            &&& distinct(variable_names(cs))
            &&& readable(cs)
        } by {
        assert(shape_error(rs[i]) is None);
        lemma_descriptor_regular(rs[i]);
        lemma_all_readable(rs[i].resource_type, rs[i].patterns, rs[i].patterns.len() as int);
        assert(reg.resources[i].branches[b].pattern == rs[i].patterns[b]);
    }
    assert forall|i: int| 0 <= i < reg.resources.len() implies distinct(
        Seq::new(
            (#[trigger] reg.resources[i]).branches.len(),
            |b: int| reg.resources[i].branches[b].id,
        ),
    ) && reg.resources[i].branches.len() > 0 by {
        assert(shape_error(rs[i]) is None);
        let ids = crate::model::branch_ids(rs[i].patterns);
        lemma_first_repeat(ids, ids.len() as int);
        assert(Seq::new(
            reg.resources[i].branches.len(),
            |b: int| reg.resources[i].branches[b].id,
        ) =~= ids);
    }
    assert forall|i: int, b: int|
        0 <= i < reg.resources.len() && 0 <= b < reg.resources[i].branches.len() implies (
        #[trigger] reg.resources[i].branches[b].parent matches Some(link) ==> {
            &&& 0 <= link.resource < reg.resources.len()
            &&& link.resource != i
            &&& reg.resources[link.resource].branches.len() > 0
            &&& link.components == reg.resources[link.resource].branches[0].pattern.components.len()
            &&& shape_prefix(
                reg.resources[link.resource].branches[0].pattern.components,
                reg.resources[i].branches[b].pattern.components,
            )
        }) by {
        let child = rs[i].patterns[b].components;
        lemma_parent(canon, i, child, canon.len() as int);
        let found = parent_upto(canon, i, child, canon.len() as int);
        if found is Some {
            let p = found->Some_0;
            assert(shape_error(rs[p]) is None);
            assert(canon[p] == rs[p].patterns[0].components);
        }
    }
}

/// Duplicate detection: where two resources declare the same type, no
/// registry is built; the build fails and says that a type is declared twice.
pub proof fn lemma_duplicate_type_fails(
    rs: Seq<ParsedResourceModel>,
    references: Seq<ParsedReferenceModel>,
    i: int,
    j: int,
)
    requires
        0 <= i < j < rs.len(),
        rs[i].resource_type == rs[j].resource_type,
    ensures
        build_registry(rs, references) matches Err(e) && e is DuplicateResourceType,
{
    let types = resource_types(rs);
    lemma_first_repeat(types, types.len() as int);
    if first_repeat(types) is None {
        assert(types[i] != types[j]);
    }
}

/// The text of the first `n` components is the start of the text of all of
/// them.
pub proof fn lemma_format_prefix(
    parent: Seq<ComponentModel>,
    child: Seq<ComponentModel>,
    values: Seq<Seq<char>>,
    ci: int,
    vi: int,
)
    requires
        0 <= ci <= parent.len() <= child.len(),
        0 <= vi,
        vi + variables_from(parent, ci) <= values.len(),
        forall|i: int| 0 <= i < parent.len() ==> same_shape(#[trigger] parent[i], child[i]),
    ensures
        format_from(child, values, ci, vi) == format_from(
            parent,
            values.take(vi + variables_from(parent, ci)),
            ci,
            vi,
        ) + format_from(child, values, parent.len() as int, vi + variables_from(parent, ci)),
    decreases parent.len() - ci,
{
    let covered = vi + variables_from(parent, ci);
    let taken = values.take(covered);
    if ci == parent.len() {
        assert(format_from(parent, taken, ci, vi) =~= Seq::<char>::empty());
        assert(Seq::<char>::empty() + format_from(child, values, ci, vi) =~= format_from(
            child,
            values,
            ci,
            vi,
        ));
    } else {
        assert(same_shape(parent[ci], child[ci]));
        match parent[ci] {
            ComponentModel::Literal(text) => {
                lemma_format_prefix(parent, child, values, ci + 1, vi);
                assert(text + (format_from(parent, taken, ci + 1, vi) + format_from(
                    child,
                    values,
                    parent.len() as int,
                    covered,
                )) =~= (text + format_from(parent, taken, ci + 1, vi)) + format_from(
                    child,
                    values,
                    parent.len() as int,
                    covered,
                ));
            },
            ComponentModel::Variable(_) => {
                lemma_format_prefix(parent, child, values, ci + 1, vi + 1);
                assert(value_at(values, vi) == value_at(taken, vi)) by {
                    if vi < values.len() {
                        assert(taken[vi] == values[vi]);
                    }
                }
                let v = value_at(values, vi);
                assert(v + (format_from(parent, taken, ci + 1, vi + 1) + format_from(
                    child,
                    values,
                    parent.len() as int,
                    covered,
                )) =~= (v + format_from(parent, taken, ci + 1, vi + 1)) + format_from(
                    child,
                    values,
                    parent.len() as int,
                    covered,
                ));
            },
        }
    }
}

/// The variables among the first `k` components of a pattern are as many as
/// the variables of a pattern of `k` components with the same shape.
pub proof fn lemma_same_shape_variables(
    parent: Seq<ComponentModel>,
    child: Seq<ComponentModel>,
    ci: int,
)
    requires
        0 <= ci <= parent.len() <= child.len(),
        forall|i: int| 0 <= i < parent.len() ==> same_shape(#[trigger] parent[i], child[i]),
    ensures
        variable_names_upto(child, parent.len() as int).len() == variable_names_upto(
            child,
            ci,
        ).len() + variables_from(parent, ci),
    decreases parent.len() - ci,
{
    if ci < parent.len() {
        lemma_same_shape_variables(parent, child, ci + 1);
        assert(same_shape(parent[ci], child[ci]));
    }
}

/// Nested linkage: in a well-formed registry, the text of the parent of a
/// name is exactly the start of the text of the name.
pub proof fn lemma_parent_text_is_prefix(reg: RegistryModel, resource: int, id: ResourceIdModel)
    requires
        reg.wf(),
        parent_id(reg, resource, id) is Some,
    ensures
        ({
            let parent = parent_id(reg, resource, id)->Some_0;
            let parent_text = format_id(reg.resources[parent.0], parent.1);
            let text = format_id(reg.resources[resource], id);
            &&& parent_text.len() <= text.len()
            &&& text.subrange(0, parent_text.len() as int) == parent_text
        }),
{
    let parent = parent_id(reg, resource, id)->Some_0;
    let branch = reg.resources[resource].branches[id.branch];
    let link = branch.parent->Some_0;
    let pc = reg.resources[link.resource].branches[0].pattern.components;
    let cc = branch.pattern.components;
    assert(reg.resources[resource].branches[id.branch].parent is Some);
    assert(shape_prefix(pc, cc));
    lemma_same_shape_variables(pc, cc, 0);
    lemma_format_prefix(pc, cc, id.values, 0, 0);
    let parent_text = format_id(reg.resources[parent.0], parent.1);
    let text = format_id(reg.resources[resource], id);
    let rest = format_from(cc, id.values, pc.len() as int, variables_from(pc, 0) as int);
    assert(text == parent_text + rest);
    assert((parent_text + rest).subrange(0, parent_text.len() as int) =~= parent_text);
}

/// Where none of the first branches matches, there is no first match.
pub proof fn lemma_first_match_none(branches: Seq<BranchModel>, s: Seq<char>, k: int)
    requires
        0 <= k <= branches.len(),
        forall|j: int|
            0 <= j < k ==> match_pattern((#[trigger] branches[j]).pattern.components, s) is None,
    ensures
        first_match_upto(branches, s, k) is None,
    decreases k,
{
    if k > 0 {
        lemma_first_match_none(branches, s, k - 1);
    }
}

/// Once a branch has matched, later branches change nothing.
pub proof fn lemma_first_match_stays(branches: Seq<BranchModel>, s: Seq<char>, k: int, n: int)
    requires
        0 <= k <= n <= branches.len(),
        first_match_upto(branches, s, k) is Some,
    ensures
        first_match_upto(branches, s, n) == first_match_upto(branches, s, k),
    decreases n - k,
{
    if k < n {
        lemma_first_match_stays(branches, s, k, n - 1);
    }
}

/// Round trip: a name that was constructed, formatted and parsed again is the
/// same name.
///
/// This holds where the name can be read back at all: the pattern of its
/// branch is readable (not empty, without empty literals, every variable
/// followed by the end or by a `/`), and no branch declared before it matches
/// the text (an earlier branch that matches wins).
pub proof fn lemma_round_trip(m: ResourceModel, branch: int, values: Seq<Seq<char>>)
    requires
        construct_id(m, branch, values) is Ok,
        readable(m.branches[branch].pattern.components),
        forall|j: int|
            0 <= j < branch ==> match_pattern(
                (#[trigger] m.branches[j]).pattern.components,
                format_id(m, construct_id(m, branch, values)->Ok_0),
            ) is None,
    ensures
        parse_id(m, format_id(m, construct_id(m, branch, values)->Ok_0)) == construct_id(
            m,
            branch,
            values,
        ),
{
    let id = construct_id(m, branch, values)->Ok_0;
    let cs = m.branches[branch].pattern.components;
    let text = format_id(m, id);
    lemma_format_then_match(cs, values);
    lemma_first_match_none(m.branches, text, branch);
    lemma_first_match_stays(m.branches, text, branch + 1, m.branches.len() as int);
    // The text is not empty: the first component gives it a character
    assert(text.len() > 0) by {
        lemma_first_invalid(values, values.len() as int);
        match cs[0] {
            ComponentModel::Literal(t) => {},
            ComponentModel::Variable(_) => {
                crate::matching::lemma_variables_split(cs, 0);
                crate::matching::lemma_variables_split(cs, 1);
                assert(values.len() > 0);
                assert(valid_values(values));
                assert(valid_value(values[0]));
            },
        }
    }
}

/// Wildcard: values of which one is the wildcard, and the others may be held,
/// make a name, and the wildcard is found in it.
pub proof fn lemma_wildcard_is_found(m: ResourceModel, branch: int, values: Seq<Seq<char>>, i: int)
    requires
        0 <= branch < m.branches.len(),
        values.len() == variable_names(m.branches[branch].pattern.components).len(),
        0 <= i < values.len(),
        values[i] == wildcard(),
        forall|k: int| 0 <= k < values.len() && k != i ==> valid_value(#[trigger] values[k]),
    ensures
        construct_id(m, branch, values) == Ok::<ResourceIdModel, ParseErrorModel>(
            ResourceIdModel { branch, values },
        ),
        has_wildcard(values),
{
    lemma_first_invalid(values, values.len() as int);
    let found = first_invalid_upto(values, values.len() as int);
    if found is Some {
        let j = found->Some_0;
        if j != i {
            assert(valid_value(values[j]));
        }
    }
}

/// Wildcard: a name of which no value is the wildcard holds no wildcard.
pub proof fn lemma_concrete_has_no_wildcard(values: Seq<Seq<char>>)
    requires
        forall|k: int| 0 <= k < values.len() ==> #[trigger] values[k] != wildcard(),
    ensures
        !has_wildcard(values),
{
}

/// Validation: values of which one is empty never make a name. Where the
/// values before the empty one may all be held, the error is a missing
/// component that names the variable of the empty value.
pub proof fn lemma_empty_value_fails(m: ResourceModel, branch: int, values: Seq<Seq<char>>, i: int)
    requires
        0 <= branch < m.branches.len(),
        values.len() == variable_names(m.branches[branch].pattern.components).len(),
        0 <= i < values.len(),
        values[i].len() == 0,
    ensures
        construct_id(m, branch, values) is Err,
        (forall|k: int| 0 <= k < i ==> valid_value(#[trigger] values[k])) ==> construct_id(
            m,
            branch,
            values,
        ) == Err::<ResourceIdModel, ParseErrorModel>(
            ParseErrorModel::MissingComponent {
                component: variable_names(m.branches[branch].pattern.components)[i],
                value: format_values(m.branches[branch].pattern.components, values),
            },
        ),
{
    lemma_first_invalid(values, values.len() as int);
    let found = first_invalid_upto(values, values.len() as int);
    if found is None {
        assert(valid_value(values[i]));
    } else {
        let j = found->Some_0;
        if forall|k: int| 0 <= k < i ==> valid_value(#[trigger] values[k]) {
            if j < i {
                assert(valid_value(values[j]));
            }
            if j > i {
                assert(valid_value(values[i]));
            }
        }
    }
}

/// Round trip in a registry: in a well-formed registry, a name of any
/// resource that was constructed, formatted and parsed again is the same
/// name, unless a branch declared before its own matches the text too.
pub proof fn lemma_round_trip_in_registry(
    reg: RegistryModel,
    resource: int,
    branch: int,
    values: Seq<Seq<char>>,
)
    requires
        reg.wf(),
        0 <= resource < reg.resources.len(),
        construct_id(reg.resources[resource], branch, values) is Ok,
        forall|j: int|
            0 <= j < branch ==> match_pattern(
                (#[trigger] reg.resources[resource].branches[j]).pattern.components,
                format_id(
                    reg.resources[resource],
                    construct_id(reg.resources[resource], branch, values)->Ok_0,
                ),
            ) is None,
    ensures
        parse_id(
            reg.resources[resource],
            format_id(
                reg.resources[resource],
                construct_id(reg.resources[resource], branch, values)->Ok_0,
            ),
        ) == construct_id(reg.resources[resource], branch, values),
{
    let m = reg.resources[resource];
    assert(readable(reg.resources[resource].branches[branch].pattern.components));
    lemma_round_trip(m, branch, values);
}

/// What parsing reads can be formatted back into the candidate: a parsed
/// name has the candidate's text, and values that may be held.
pub proof fn lemma_parse_sound(m: ResourceModel, s: Seq<char>, k: int)
    requires
        0 <= k <= m.branches.len(),
        first_match_upto(m.branches, s, k) is Some,
    ensures
        ({
            let id = first_match_upto(m.branches, s, k)->Some_0;
            &&& 0 <= id.branch < k
            &&& format_id(m, id) == s
            &&& valid_values(id.values)
        }),
    decreases k,
{
    if first_match_upto(m.branches, s, k - 1) is Some {
        lemma_parse_sound(m, s, k - 1);
    } else {
        let cs = m.branches[k - 1].pattern.components;
        lemma_match_sound(cs, s, 0, 0);
        assert(s.subrange(0, s.len() as int) =~= s);
    }
}

/// The number of variables among the first `components` components of a
/// pattern; 0 where the pattern has fewer components than that.
pub fn covered_variables(pattern: &ResourcePattern, components: usize) -> (covered: usize)
    ensures
        covered == variable_names_upto(pattern@.components, components as int).len(),
        covered <= components,
{
    if components > pattern.components.len() {
        return 0;
    }
    let mut covered: usize = 0;
    let mut k: usize = 0;
    while k < components
        invariant
            k <= components <= pattern.components@.len(),
            covered <= k,
            covered == variable_names_upto(pattern@.components, k as int).len(),
        decreases components - k,
    {
        proof {
            assert(pattern@.components[k as int] == pattern.components@[k as int]@);
        }
        match &pattern.components[k] {
            ResourcePatternComponent::Variable(_) => {
                covered += 1;
            },
            ResourcePatternComponent::Literal(_) => {},
        }
        k += 1;
    }
    covered
}

impl ResourceId {
    /// Whether one of the values is the wildcard `-`.
    pub fn contains_wildcard(&self) -> (found: bool)
        ensures
            found == has_wildcard(self@.values),
    {
        any_wildcard(&self.values)
    }
}

impl Resource {
    /// Construct the name of branch `branch` from the values of its
    /// variables. No value may be empty or hold a `/`; the wildcard `-` is a
    /// value like any other.
    pub fn construct(&self, branch: usize, values: Vec<String>) -> (r: Result<
        ResourceId,
        ParseError,
    >)
        ensures
            result_view(r) == construct_id(self@, branch as int, values.deep_view()),
    {
        if branch >= self.branches.len() {
            return Err(ParseError::InvalidFormat { reason: "unknown branch".to_owned() });
        }
        proof {
            assert(self@.branches[branch as int] == self.branches@[branch as int]@);
        }
        match self.branches[branch].pattern.check_values(&values) {
            Ok(()) => Ok(ResourceId { branch, values }),
            Err(e) => Err(e),
        }
    }

    /// Check that a name is one that `construct` would have made.
    pub fn validate(&self, id: &ResourceId) -> (r: Result<(), ParseError>)
        ensures
            match r {
                Ok(_) => id_error(self@, id@.branch, id@.values) is None,
                Err(e) => id_error(self@, id@.branch, id@.values) == Some(e@),
            },
    {
        if id.branch >= self.branches.len() {
            return Err(ParseError::InvalidFormat { reason: "unknown branch".to_owned() });
        }
        proof {
            assert(self@.branches[id.branch as int] == self.branches@[id.branch as int]@);
        }
        self.branches[id.branch].pattern.check_values(&id.values)
    }

    /// The text of a name.
    pub fn format(&self, id: &ResourceId) -> (out: String)
        ensures
            out@ == format_id(self@, id@),
    {
        if id.branch >= self.branches.len() {
            return String::new();
        }
        proof {
            assert(self@.branches[id.branch as int] == self.branches@[id.branch as int]@);
        }
        self.branches[id.branch].pattern.format_values(&id.values)
    }

    /// Read a candidate string as a name of this resource.
    pub fn parse(&self, candidate: &str) -> (r: Result<ResourceId, ParseError>)
        ensures
            result_view(r) == parse_id(self@, candidate@),
    {
        if chars_of(candidate).len() == 0 {
            return Err(ParseError::EmptyValue);
        }
        let mut k: usize = 0;
        while k < self.branches.len()
            invariant
                k <= self.branches@.len(),
                candidate@.len() > 0,
                first_match_upto(self@.branches, candidate@, k as int) is None,
            decreases self.branches@.len() - k,
        {
            proof {
                assert(self@.branches[k as int] == self.branches@[k as int]@);
            }
            match self.branches[k].pattern.match_candidate(candidate) {
                Some(values) => {
                    proof {
                        lemma_first_match_stays(
                            self@.branches,
                            candidate@,
                            k + 1,
                            self.branches@.len() as int,
                        );
                    }
                    return Ok(ResourceId { branch: k, values });
                },
                None => {},
            }
            k += 1;
        }
        let expected = if self.branches.len() > 0 {
            proof {
                assert(self@.branches[0] == self.branches@[0]@);
            }
            self.branches[0].pattern.pattern.clone()
        } else {
            String::new()
        };
        Err(ParseError::InvalidPattern { value: candidate.to_owned(), expected_pattern: expected })
    }
}

impl Registry {
    /// The parent of a name of resource `resource`: the index of the parent
    /// resource and the name in it. `None` where the name's branch is not
    /// nested.
    pub fn parent(&self, resource: usize, id: &ResourceId) -> (out: Option<(usize, ResourceId)>)
        ensures
            match out {
                Some(found) => parent_id(self@, resource as int, id@) == Some(
                    (found.0 as int, found.1@),
                ),
                None => parent_id(self@, resource as int, id@) is None,
            },
    {
        if resource >= self.resources.len() {
            return None;
        }
        let model = &self.resources[resource];
        proof {
            assert(self@.resources[resource as int] == model@);
        }
        if id.branch >= model.branches.len() {
            return None;
        }
        let branch = &model.branches[id.branch];
        proof {
            assert(model@.branches[id.branch as int] == branch@);
        }
        match branch.parent {
            Some(link) => {
                if link.resource >= self.resources.len() {
                    return None;
                }
                let covered = covered_variables(&branch.pattern, link.components);
                if covered > id.values.len() {
                    return None;
                }
                let mut values: Vec<String> = Vec::new();
                let mut i: usize = 0;
                while i < covered
                    invariant
                        i <= covered <= id.values@.len(),
                        values@.len() == i,
                        forall|j: int| 0 <= j < i ==> (#[trigger] values@[j])@ == id.values@[j]@,
                    decreases covered - i,
                {
                    values.push(id.values[i].clone());
                    i += 1;
                }
                proof {
                    assert(values.deep_view() =~= id@.values.take(covered as int));
                }
                Some((link.resource, ResourceId { branch: 0, values }))
            },
            None => None,
        }
    }
}

} // verus!

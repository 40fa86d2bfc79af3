//! The resource models of a whole compilation: every declared resource with
//! its branches (one per pattern), the links from nested resources to their
//! parents, and the references resolved against the declared types.

use crate::descriptor::descriptor_error;
use crate::error::{result_view, BuildError, BuildErrorModel};
use crate::matching::readable;
use crate::parse_descriptor::{
    ParsedReferenceModel, ParsedResource, ParsedResourceModel, ParsedResourceReference,
};
use crate::pattern::{ComponentModel, PatternModel, ResourcePattern, ResourcePatternComponent};
use crate::resource_id::lemma_built_registry_wf;
use crate::text::{chars_eq, chars_of, clone_optional, clone_strings, string_from_chars};
use vstd::prelude::*;

verus! {

/// The link from a branch to the resource that its leading components name.
#[derive(Debug, Clone, Copy, PartialEq, Eq)]
pub struct ParentLink {
    /// The index of the parent resource in the registry.
    pub resource: usize,
    /// How many leading components of the branch's pattern the parent's
    /// canonical pattern covers.
    pub components: usize,
}

/// One accepted shape of a resource: a pattern, the id that tells it from the
/// other branches, and its parent, if it is nested.
#[derive(Debug, Clone)]
pub struct ResourceBranch {
    pub id: String,
    pub pattern: ResourcePattern,
    pub parent: Option<ParentLink>,
}

/// Whether a resource has one pattern or several.
#[derive(Debug, Clone, Copy, PartialEq, Eq)]
pub enum ResourceShape {
    /// A single pattern; its variables are the fields of the identifier.
    Simple,
    /// Two or more patterns, one branch each.
    Variant,
}

/// One declared resource.
#[derive(Debug, Clone)]
pub struct Resource {
    pub resource_type: String,
    /// The branches, in the order in which the patterns were declared. The
    /// first one is the canonical pattern.
    pub branches: Vec<ResourceBranch>,
    pub singular: Option<String>,
    pub plural: Option<String>,
    pub history: Vec<String>,
    pub message_name: String,
    pub source_file: String,
}

/// One declared reference, with the resources that it names, where they are
/// declared in the compilation.
#[derive(Debug, Clone)]
pub struct Reference {
    pub field_name: String,
    pub containing_message: String,
    pub source_file: String,
    pub resource_type: Option<String>,
    pub child_type: Option<String>,
    /// The index of the resource named by `resource_type`; `None` where the
    /// type is declared nowhere.
    pub target: Option<usize>,
    /// The index of the resource named by `child_type`.
    pub child_target: Option<usize>,
}

/// All resources and references of a compilation.
#[derive(Debug, Clone)]
pub struct Registry {
    pub resources: Vec<Resource>,
    pub references: Vec<Reference>,
}

/// A parent link as mathematics.
pub struct ParentLinkModel {
    pub resource: int,
    pub components: int,
}

/// A branch as mathematics.
pub struct BranchModel {
    pub id: Seq<char>,
    pub pattern: PatternModel,
    pub parent: Option<ParentLinkModel>,
}

/// A resource as mathematics.
pub struct ResourceModel {
    pub resource_type: Seq<char>,
    pub branches: Seq<BranchModel>,
    pub singular: Option<Seq<char>>,
    pub plural: Option<Seq<char>>,
    pub history: Seq<Seq<char>>,
    pub message_name: Seq<char>,
    pub source_file: Seq<char>,
}

/// A reference as mathematics.
pub struct ReferenceModel {
    pub field_name: Seq<char>,
    pub containing_message: Seq<char>,
    pub source_file: Seq<char>,
    pub resource_type: Option<Seq<char>>,
    pub child_type: Option<Seq<char>>,
    pub target: Option<int>,
    pub child_target: Option<int>,
}

/// A registry as mathematics.
pub struct RegistryModel {
    pub resources: Seq<ResourceModel>,
    pub references: Seq<ReferenceModel>,
}

impl View for ParentLink {
    type V = ParentLinkModel;

    open spec fn view(&self) -> ParentLinkModel {
        ParentLinkModel { resource: self.resource as int, components: self.components as int }
    }
}

impl DeepView for ParentLink {
    type V = ParentLinkModel;

    open spec fn deep_view(&self) -> ParentLinkModel {
        self@
    }
}

impl View for ResourceBranch {
    type V = BranchModel;

    open spec fn view(&self) -> BranchModel {
        BranchModel { id: self.id@, pattern: self.pattern@, parent: self.parent.deep_view() }
    }
}

impl DeepView for ResourceBranch {
    type V = BranchModel;

    open spec fn deep_view(&self) -> BranchModel {
        self@
    }
}

impl View for Resource {
    type V = ResourceModel;

    open spec fn view(&self) -> ResourceModel {
        ResourceModel {
            resource_type: self.resource_type@,
            branches: self.branches.deep_view(),
            singular: self.singular.deep_view(),
            plural: self.plural.deep_view(),
            history: self.history.deep_view(),
            message_name: self.message_name@,
            source_file: self.source_file@,
        }
    }
}

impl DeepView for Resource {
    type V = ResourceModel;

    open spec fn deep_view(&self) -> ResourceModel {
        self@
    }
}

/// An optional index as mathematics.
pub open spec fn index_view(i: Option<usize>) -> Option<int> {
    match i {
        Some(n) => Some(n as int),
        None => None,
    }
}

impl View for Reference {
    type V = ReferenceModel;

    open spec fn view(&self) -> ReferenceModel {
        ReferenceModel {
            field_name: self.field_name@,
            containing_message: self.containing_message@,
            source_file: self.source_file@,
            resource_type: self.resource_type.deep_view(),
            child_type: self.child_type.deep_view(),
            target: index_view(self.target),
            child_target: index_view(self.child_target),
        }
    }
}

impl DeepView for Reference {
    type V = ReferenceModel;

    open spec fn deep_view(&self) -> ReferenceModel {
        self@
    }
}

impl View for Registry {
    type V = RegistryModel;

    open spec fn view(&self) -> RegistryModel {
        RegistryModel {
            resources: self.resources.deep_view(),
            references: self.references.deep_view(),
        }
    }
}

/// A letter or a digit of ASCII.
pub open spec fn is_alphanumeric(c: char) -> bool {
    ('a' <= c && c <= 'z') || ('A' <= c && c <= 'Z') || ('0' <= c && c <= '9')
}

/// The upper case of a lower-case ASCII letter; any other character as it is.
pub open spec fn to_upper(c: char) -> char {
    if 'a' <= c && c <= 'z' {
        ((c as u8 - 32) as u8) as char
    } else {
        c
    }
}

/// The humanized form of the first `k` characters of `s`.
pub open spec fn humanize_upto(s: Seq<char>, k: int) -> Seq<char>
    decreases k,
{
    if k <= 0 || k > s.len() {
        Seq::empty()
    } else {
        let before = humanize_upto(s, k - 1);
        let c = s[k - 1];
        if !is_alphanumeric(c) {
            before
        } else if k == 1 || !is_alphanumeric(s[k - 2]) {
            before.push(to_upper(c))
        } else {
            before.push(c)
        }
    }
}

/// `s` humanized: the letters and digits of `s`, with every first one of a run
/// in upper case (`projects/` gives `Projects`, `billing_accounts/` gives
/// `BillingAccounts`).
pub open spec fn humanize(s: Seq<char>) -> Seq<char> {
    humanize_upto(s, s.len() as int)
}

/// The fixed literal prefix of a pattern: the text before its first variable.
pub open spec fn literal_prefix(cs: Seq<ComponentModel>) -> Seq<char> {
    if cs.len() > 0 {
        match cs[0] {
            ComponentModel::Literal(text) => text,
            ComponentModel::Variable(_) => Seq::empty(),
        }
    } else {
        Seq::empty()
    }
}

/// The id of the branch that a pattern makes: its literal prefix, humanized.
pub open spec fn branch_id(cs: Seq<ComponentModel>) -> Seq<char> {
    humanize(literal_prefix(cs))
}

/// The index of the first of the first `k` keys that equals `key`.
pub open spec fn first_index_upto(keys: Seq<Seq<char>>, key: Seq<char>, k: int) -> Option<int>
    decreases k,
{
    if k <= 0 || k > keys.len() {
        None
    } else {
        match first_index_upto(keys, key, k - 1) {
            Some(i) => Some(i),
            None => if keys[k - 1] == key {
                Some(k - 1)
            } else {
                None
            },
        }
    }
}

/// The first repeat among the first `k` keys: the least index `j` whose key
/// stands at an earlier index too, with the least such earlier index `i`, as
/// `(i, j)`.
pub open spec fn first_repeat_upto(keys: Seq<Seq<char>>, k: int) -> Option<(int, int)>
    decreases k,
{
    if k <= 0 || k > keys.len() {
        None
    } else {
        match first_repeat_upto(keys, k - 1) {
            Some(pair) => Some(pair),
            None => match first_index_upto(keys, keys[k - 1], k - 1) {
                Some(i) => Some((i, k - 1)),
                None => None,
            },
        }
    }
}

/// The first repeat among the keys.
pub open spec fn first_repeat(keys: Seq<Seq<char>>) -> Option<(int, int)> {
    first_repeat_upto(keys, keys.len() as int)
}

/// The keys are pairwise distinct.
pub open spec fn distinct(keys: Seq<Seq<char>>) -> bool {
    forall|i: int, j: int| 0 <= i < j < keys.len() ==> keys[i] != keys[j]
}

/// The resource types of the declared resources, in order.
pub open spec fn resource_types(rs: Seq<ParsedResourceModel>) -> Seq<Seq<char>> {
    Seq::new(rs.len(), |i: int| rs[i].resource_type)
}

/// The branch ids that the patterns make, in order.
pub open spec fn branch_ids(patterns: Seq<PatternModel>) -> Seq<Seq<char>> {
    Seq::new(patterns.len(), |i: int| branch_id(patterns[i].components))
}

/// The components of the canonical (first) pattern of each resource; none for
/// a resource without patterns.
pub open spec fn canonical_components(rs: Seq<ParsedResourceModel>) -> Seq<Seq<ComponentModel>> {
    Seq::new(
        rs.len(),
        |i: int|
            if rs[i].patterns.len() > 0 {
                rs[i].patterns[0].components
            } else {
                Seq::empty()
            },
    )
}

/// Two components have the same shape: both are variables, or both are
/// literals with the same text.
pub open spec fn same_shape(a: ComponentModel, b: ComponentModel) -> bool {
    match (a, b) {
        (ComponentModel::Literal(x), ComponentModel::Literal(y)) => x == y,
        (ComponentModel::Variable(_), ComponentModel::Variable(_)) => true,
        _ => false,
    }
}

/// `parent` is not empty, is shorter than `child`, and has the shape of what
/// `child` begins with.
pub open spec fn shape_prefix(parent: Seq<ComponentModel>, child: Seq<ComponentModel>) -> bool {
    &&& 0 < parent.len() < child.len()
    &&& forall|i: int| 0 <= i < parent.len() ==> same_shape(#[trigger] parent[i], child[i])
}

/// The parent of the pattern `child` of resource `own` among the first `k`
/// resources: the one, other than `own`, whose canonical pattern is the
/// longest shape prefix of `child`; of several of that length, the first.
pub open spec fn parent_upto(
    canon: Seq<Seq<ComponentModel>>,
    own: int,
    child: Seq<ComponentModel>,
    k: int,
) -> Option<int>
    decreases k,
{
    if k <= 0 || k > canon.len() {
        None
    } else {
        let before = parent_upto(canon, own, child, k - 1);
        if k - 1 != own && shape_prefix(canon[k - 1], child) && (before matches Some(b)
            ==> canon[b].len() < canon[k - 1].len()) {
            Some(k - 1)
        } else {
            before
        }
    }
}

/// The link from the pattern `child` of resource `own` to its parent.
pub open spec fn parent_link(
    canon: Seq<Seq<ComponentModel>>,
    own: int,
    child: Seq<ComponentModel>,
) -> Option<ParentLinkModel> {
    match parent_upto(canon, own, child, canon.len() as int) {
        Some(p) => Some(ParentLinkModel { resource: p, components: canon[p].len() as int }),
        None => None,
    }
}

/// The first of the first `k` patterns whose names cannot be read back, as
/// the error that it is.
pub open spec fn unreadable_upto(
    resource_type: Seq<char>,
    patterns: Seq<PatternModel>,
    k: int,
) -> Option<BuildErrorModel>
    decreases k,
{
    if k <= 0 || k > patterns.len() {
        None
    } else {
        match unreadable_upto(resource_type, patterns, k - 1) {
            Some(e) => Some(e),
            None => if readable(patterns[k - 1].components) {
                None
            } else {
                Some(
                    BuildErrorModel::UnreadablePattern {
                        resource_type,
                        pattern: patterns[k - 1].pattern,
                    },
                )
            },
        }
    }
}

/// What stops the model of one resource from being built. In this order: the
/// descriptor is not regular; one of its patterns gives names that cannot be
/// read back; two of its patterns make the same branch id.
pub open spec fn shape_error(r: ParsedResourceModel) -> Option<BuildErrorModel> {
    match descriptor_error(r) {
        Some(e) => Some(e),
        None => match unreadable_upto(r.resource_type, r.patterns, r.patterns.len() as int) {
            Some(e) => Some(e),
            None => match first_repeat(branch_ids(r.patterns)) {
                Some(pair) => Some(
                    BuildErrorModel::AmbiguousPatternPrefix {
                        resource_type: r.resource_type,
                        branch_id: branch_ids(r.patterns)[pair.1],
                    },
                ),
                None => None,
            },
        }
    }
}

/// The first shape error among the first `k` resources.
pub open spec fn shape_error_upto(rs: Seq<ParsedResourceModel>, k: int) -> Option<BuildErrorModel>
    decreases k,
{
    if k <= 0 || k > rs.len() {
        None
    } else {
        match shape_error_upto(rs, k - 1) {
            Some(e) => Some(e),
            None => shape_error(rs[k - 1]),
        }
    }
}

/// The model of the pattern `b` of resource `own`.
pub open spec fn branch_model(rs: Seq<ParsedResourceModel>, own: int, b: int) -> BranchModel {
    let pattern = rs[own].patterns[b];
    BranchModel {
        id: branch_id(pattern.components),
        pattern,
        parent: parent_link(canonical_components(rs), own, pattern.components),
    }
}

/// The model of resource `own`.
pub open spec fn resource_model(rs: Seq<ParsedResourceModel>, own: int) -> ResourceModel {
    let r = rs[own];
    ResourceModel {
        resource_type: r.resource_type,
        branches: Seq::new(r.patterns.len(), |b: int| branch_model(rs, own, b)),
        singular: r.singular,
        plural: r.plural,
        history: r.history,
        message_name: r.message_name,
        source_file: r.source_file,
    }
}

/// The index of the resource that declares the type, if the type is given and
/// declared.
pub open spec fn resolve(types: Seq<Seq<char>>, wanted: Option<Seq<char>>) -> Option<int> {
    match wanted {
        Some(t) => first_index_upto(types, t, types.len() as int),
        None => None,
    }
}

/// The model of a reference: what was declared, resolved against the types.
pub open spec fn reference_model(
    types: Seq<Seq<char>>,
    reference: ParsedReferenceModel,
) -> ReferenceModel {
    ReferenceModel {
        field_name: reference.field_name,
        containing_message: reference.containing_message,
        source_file: reference.source_file,
        resource_type: reference.resource_type,
        child_type: reference.child_type,
        target: resolve(types, reference.resource_type),
        child_target: resolve(types, reference.child_type),
    }
}

/// The registry of a compilation.
///
/// A resource type declared twice is an error, which names the files of the
/// first two declarations. Then each resource, in order, has to be regular,
/// its patterns have to give names that can be read back, and they have to
/// make distinct branch ids. The models keep the order of declaration; a
/// reference whose type is declared nowhere stays unresolved.
pub open spec fn build_registry(
    rs: Seq<ParsedResourceModel>,
    references: Seq<ParsedReferenceModel>,
) -> Result<RegistryModel, BuildErrorModel> {
    let types = resource_types(rs);
    match first_repeat(types) {
        Some(pair) => Err(
            BuildErrorModel::DuplicateResourceType {
                resource_type: types[pair.1],
                first_file: rs[pair.0].source_file,
                second_file: rs[pair.1].source_file,
            },
        ),
        None => match shape_error_upto(rs, rs.len() as int) {
            Some(e) => Err(e),
            None => Ok(
                RegistryModel {
                    resources: Seq::new(rs.len(), |i: int| resource_model(rs, i)),
                    references: Seq::new(
                        references.len(),
                        |i: int| reference_model(types, references[i]),
                    ),
                },
            ),
        },
    }
}

/// What the first index of a key is: an index that holds the key, after
/// indices that do not; none exactly when no index holds it.
pub proof fn lemma_first_index(keys: Seq<Seq<char>>, key: Seq<char>, k: int)
    requires
        0 <= k <= keys.len(),
    ensures
        match first_index_upto(keys, key, k) {
            Some(i) => 0 <= i < k && keys[i] == key && forall|j: int|
                0 <= j < i ==> keys[j] != key,
            None => forall|j: int| 0 <= j < k ==> keys[j] != key,
        },
    decreases k,
{
    if k > 0 {
        lemma_first_index(keys, key, k - 1);
    }
}

/// Once a key is found, later keys change nothing.
pub proof fn lemma_first_index_stays(keys: Seq<Seq<char>>, key: Seq<char>, k: int, n: int)
    requires
        0 <= k <= n <= keys.len(),
        first_index_upto(keys, key, k) is Some,
    ensures
        first_index_upto(keys, key, n) == first_index_upto(keys, key, k),
    decreases n - k,
{
    if k < n {
        lemma_first_index_stays(keys, key, k, n - 1);
    }
}

/// What the first repeat is: none exactly when the keys are pairwise
/// distinct; else two indices of equal keys.
pub proof fn lemma_first_repeat(keys: Seq<Seq<char>>, k: int)
    requires
        0 <= k <= keys.len(),
    ensures
        match first_repeat_upto(keys, k) {
            Some(pair) => 0 <= pair.0 < pair.1 < k && keys[pair.0] == keys[pair.1],
            None => forall|i: int, j: int| 0 <= i < j < k ==> keys[i] != keys[j],
        },
    decreases k,
{
    if k > 0 {
        lemma_first_repeat(keys, k - 1);
        lemma_first_index(keys, keys[k - 1], k - 1);
    }
}

/// Once a repeat is found, later keys change nothing.
pub proof fn lemma_first_repeat_stays(keys: Seq<Seq<char>>, k: int, n: int)
    requires
        0 <= k <= n <= keys.len(),
        first_repeat_upto(keys, k) is Some,
    ensures
        first_repeat_upto(keys, n) == first_repeat_upto(keys, k),
    decreases n - k,
{
    if k < n {
        lemma_first_repeat_stays(keys, k, n - 1);
    }
}

/// Once a pattern is found that cannot be read back, later patterns change
/// nothing.
pub proof fn lemma_unreadable_stays(
    resource_type: Seq<char>,
    patterns: Seq<PatternModel>,
    k: int,
    n: int,
)
    requires
        0 <= k <= n <= patterns.len(),
        unreadable_upto(resource_type, patterns, k) is Some,
    ensures
        unreadable_upto(resource_type, patterns, n) == unreadable_upto(resource_type, patterns, k),
    decreases n - k,
{
    if k < n {
        lemma_unreadable_stays(resource_type, patterns, k, n - 1);
    }
}

/// Where none of the first `k` patterns is unreadable, each of them can be
/// read back.
pub proof fn lemma_all_readable(resource_type: Seq<char>, patterns: Seq<PatternModel>, k: int)
    requires
        0 <= k <= patterns.len(),
        unreadable_upto(resource_type, patterns, k) is None,
    ensures
        forall|i: int| 0 <= i < k ==> readable((#[trigger] patterns[i]).components),
    decreases k,
{
    if k > 0 {
        lemma_all_readable(resource_type, patterns, k - 1);
    }
}

/// Once a resource is in error, later resources change nothing.
pub proof fn lemma_shape_error_stays(rs: Seq<ParsedResourceModel>, k: int, n: int)
    requires
        0 <= k <= n <= rs.len(),
        shape_error_upto(rs, k) is Some,
    ensures
        shape_error_upto(rs, n) == shape_error_upto(rs, k),
    decreases n - k,
{
    if k < n {
        lemma_shape_error_stays(rs, k, n - 1);
    }
}

/// What the parent is: a resource other than `own` whose canonical pattern is
/// a shape prefix of the child.
pub proof fn lemma_parent(
    canon: Seq<Seq<ComponentModel>>,
    own: int,
    child: Seq<ComponentModel>,
    k: int,
)
    requires
        0 <= k <= canon.len(),
    ensures
        parent_upto(canon, own, child, k) matches Some(p) ==> 0 <= p < k && p != own
            && shape_prefix(canon[p], child),
    decreases k,
{
    if k > 0 {
        lemma_parent(canon, own, child, k - 1);
    }
}

/// The upper case of a lower-case ASCII letter; any other character as it is.
pub fn to_upper_exec(c: char) -> (u: char)
    ensures
        u == to_upper(c),
{
    if 'a' <= c && c <= 'z' {
        ((c as u8) - 32) as char
    } else {
        c
    }
}

/// The index of the first of the first `k` keys that equals `key`.
pub fn first_index(keys: &Vec<String>, key: &str, k: usize) -> (found: Option<usize>)
    requires
        k <= keys@.len(),
    ensures
        index_view(found) == first_index_upto(keys.deep_view(), key@, k as int),
{
    let wanted = chars_of(key);
    let mut i: usize = 0;
    while i < k
        invariant
            i <= k <= keys@.len(),
            wanted@ == key@,
            first_index_upto(keys.deep_view(), key@, i as int) is None,
        decreases k - i,
    {
        let have = chars_of(keys[i].as_str());
        proof {
            assert(keys.deep_view()[i as int] == keys@[i as int]@);
        }
        if chars_eq(have.as_slice(), wanted.as_slice()) {
            proof {
                lemma_first_index_stays(keys.deep_view(), key@, i + 1, k as int);
            }
            return Some(i);
        }
        i += 1;
    }
    None
}

/// The first repeat among the keys.
pub fn find_repeat(keys: &Vec<String>) -> (found: Option<(usize, usize)>)
    ensures
        match found {
            Some(pair) => first_repeat(keys.deep_view()) == Some((pair.0 as int, pair.1 as int)),
            None => first_repeat(keys.deep_view()) is None,
        },
{
    let mut j: usize = 0;
    while j < keys.len()
        invariant
            j <= keys@.len(),
            first_repeat_upto(keys.deep_view(), j as int) is None,
        decreases keys@.len() - j,
    {
        proof {
            assert(keys.deep_view()[j as int] == keys@[j as int]@);
        }
        match first_index(keys, keys[j].as_str(), j) {
            Some(i) => {
                proof {
                    lemma_first_repeat_stays(keys.deep_view(), j + 1, keys@.len() as int);
                }
                return Some((i, j));
            },
            None => {},
        }
        j += 1;
    }
    None
}

/// The id of the branch that a pattern makes.
pub fn branch_id_of(pattern: &ResourcePattern) -> (id: String)
    ensures
        id@ == branch_id(pattern@.components),
{
    if pattern.components.len() > 0 {
        proof {
            assert(pattern@.components[0] == pattern.components@[0]@);
        }
        match &pattern.components[0] {
            ResourcePatternComponent::Literal(text) => {
                let prefix = chars_of(text.as_str());
                string_from_chars(humanize_exec(prefix.as_slice()).as_slice())
            },
            ResourcePatternComponent::Variable(_) => String::new(),
        }
    } else {
        String::new()
    }
}

/// Whether `parent` is a shape prefix of `child`.
pub fn is_shape_prefix(parent: &ResourcePattern, child: &ResourcePattern) -> (b: bool)
    ensures
        b == shape_prefix(parent@.components, child@.components),
{
    let n = parent.components.len();
    if n == 0 || n >= child.components.len() {
        return false;
    }
    let mut i: usize = 0;
    while i < n
        invariant
            i <= n,
            n == parent.components@.len(),
            n < child.components@.len(),
            forall|j: int|
                0 <= j < i ==> same_shape(
                    #[trigger] parent@.components[j],
                    child@.components[j],
                ),
        decreases n - i,
    {
        proof {
            assert(parent@.components[i as int] == parent.components@[i as int]@);
            assert(child@.components[i as int] == child.components@[i as int]@);
        }
        let same = match (&parent.components[i], &child.components[i]) {
            (
                ResourcePatternComponent::Literal(x),
                ResourcePatternComponent::Literal(y),
            ) => chars_eq(chars_of(x.as_str()).as_slice(), chars_of(y.as_str()).as_slice()),
            (ResourcePatternComponent::Variable(_), ResourcePatternComponent::Variable(_)) => true,
            _ => false,
        };
        if !same {
            return false;
        }
        i += 1;
    }
    true
}

/// The link from the pattern `child` of resource `own` to its parent.
pub fn find_parent(resources: &[ParsedResource], own: usize, child: &ResourcePattern) -> (link:
    Option<ParentLink>)
    ensures
        link.deep_view() == parent_link(
            canonical_components(resources.deep_view()),
            own as int,
            child@.components,
        ),
{
    let ghost canon = canonical_components(resources.deep_view());
    let mut best: Option<ParentLink> = None;
    let mut k: usize = 0;
    while k < resources.len()
        invariant
            k <= resources@.len(),
            canon == canonical_components(resources.deep_view()),
            match best {
                Some(l) => parent_upto(canon, own as int, child@.components, k as int) == Some(
                    l.resource as int,
                ) && l.resource < k && l.components == canon[l.resource as int].len(),
                None => parent_upto(canon, own as int, child@.components, k as int) is None,
            },
        decreases resources@.len() - k,
    {
        proof {
            assert(resources.deep_view()[k as int] == resources@[k as int]@);
        }
        if k != own && resources[k].patterns.len() > 0 {
            let candidate = &resources[k].patterns[0];
            proof {
                assert(resources@[k as int]@.patterns[0] == resources@[k as int].patterns@[0]@);
                assert(canon[k as int] == candidate@.components);
            }
            if is_shape_prefix(candidate, child) {
                let longer = match best {
                    Some(l) => l.components < candidate.components.len(),
                    None => true,
                };
                if longer {
                    best = Some(ParentLink { resource: k, components: candidate.components.len() });
                }
            }
        } else {
            proof {
                if k != own {
                    assert(canon[k as int] =~= Seq::<ComponentModel>::empty());
                }
            }
        }
        k += 1;
    }
    best
}

impl Resource {
    /// Whether this resource has one pattern or several.
    pub fn shape(&self) -> (shape: ResourceShape)
        ensures
            shape == if self@.branches.len() >= 2 {
                ResourceShape::Variant
            } else {
                ResourceShape::Simple
            },
    {
        if self.branches.len() >= 2 {
            ResourceShape::Variant
        } else {
            ResourceShape::Simple
        }
    }

    /// The type of this resource, as its annotation names it.
    pub fn resource_type(&self) -> (name: &str)
        ensures
            name@ == self@.resource_type,
    {
        self.resource_type.as_str()
    }
}

impl Registry {
    /// Build the models of a compilation from what the walk of all its files
    /// has found.
    pub fn build(resources: &[ParsedResource], references: &[ParsedResourceReference]) -> (r:
        Result<Registry, BuildError>)
        ensures
            result_view(r) == build_registry(resources.deep_view(), references.deep_view()),
            r matches Ok(registry) ==> registry@.wf(),
    {
        let ghost rs = resources.deep_view();
        let ghost refs = references.deep_view();
        let n = resources.len();

        // The types, and the check that none is declared twice
        let mut types: Vec<String> = Vec::new();
        let mut k: usize = 0;
        while k < n
            invariant
                k <= n,
                n == resources@.len(),
                types@.len() == k,
                forall|j: int|
                    0 <= j < k ==> (#[trigger] types@[j])@ == resources@[j].resource_type@,
            decreases n - k,
        {
            types.push(resources[k].resource_type.clone());
            k += 1;
        }
        proof {
            assert(types.deep_view() =~= resource_types(rs));
        }
        match find_repeat(&types) {
            Some(pair) => {
                proof {
                    lemma_first_repeat(types.deep_view(), n as int);
                }
                return Err(
                    BuildError::DuplicateResourceType {
                        resource_type: types[pair.1].clone(),
                        first_file: resources[pair.0].source_file.clone(),
                        second_file: resources[pair.1].source_file.clone(),
                    },
                );
            },
            None => {},
        }

        // The shape pass: every resource is regular, its patterns can be read
        // back, and they make distinct branch ids
        let mut i: usize = 0;
        while i < n
            invariant
                i <= n,
                n == resources@.len(),
                rs == resources.deep_view(),
                first_repeat(resource_types(rs)) is None,
                shape_error_upto(rs, i as int) is None,
            decreases n - i,
        {
            let resource = &resources[i];
            proof {
                assert(rs[i as int] == resource@);
            }
            match resource.check() {
                Ok(()) => {},
                Err(e) => {
                    proof {
                        lemma_shape_error_stays(rs, i + 1, n as int);
                    }
                    return Err(e);
                },
            }
            let mut p: usize = 0;
            while p < resource.patterns.len()
                invariant
                    p <= resource.patterns@.len(),
                    i < n,
                    n == resources@.len(),
                    rs == resources.deep_view(),
                    rs[i as int] == resource@,
                    first_repeat(resource_types(rs)) is None,
                    shape_error_upto(rs, i as int) is None,
                    descriptor_error(resource@) is None,
                    unreadable_upto(resource@.resource_type, resource@.patterns, p as int) is None,
                decreases resource.patterns@.len() - p,
            {
                proof {
                    assert(resource@.patterns[p as int] == resource.patterns@[p as int]@);
                }
                if !resource.patterns[p].is_readable() {
                    proof {
                        lemma_unreadable_stays(
                            resource@.resource_type,
                            resource@.patterns,
                            p + 1,
                            resource.patterns@.len() as int,
                        );
                        lemma_shape_error_stays(rs, i + 1, n as int);
                    }
                    return Err(
                        BuildError::UnreadablePattern {
                            resource_type: resource.resource_type.clone(),
                            pattern: resource.patterns[p].pattern.clone(),
                        },
                    );
                }
                p += 1;
            }
            let mut ids: Vec<String> = Vec::new();
            let mut b: usize = 0;
            while b < resource.patterns.len()
                invariant
                    b <= resource.patterns@.len(),
                    ids@.len() == b,
                    forall|j: int|
                        0 <= j < b ==> (#[trigger] ids@[j])@ == branch_id(
                            resource.patterns@[j]@.components,
                        ),
                decreases resource.patterns@.len() - b,
            {
                ids.push(branch_id_of(&resource.patterns[b]));
                b += 1;
            }
            proof {
                assert(ids.deep_view() =~= branch_ids(resource@.patterns));
            }
            match find_repeat(&ids) {
                Some(pair) => {
                    proof {
                        lemma_first_repeat(ids.deep_view(), ids@.len() as int);
                        lemma_shape_error_stays(rs, i + 1, n as int);
                    }
                    return Err(
                        BuildError::AmbiguousPatternPrefix {
                            resource_type: resource.resource_type.clone(),
                            branch_id: ids[pair.1].clone(),
                        },
                    );
                },
                None => {},
            }
            i += 1;
        }

        // The linkage pass: the models, each branch with its parent
        let mut models: Vec<Resource> = Vec::new();
        let mut i: usize = 0;
        while i < n
            invariant
                i <= n,
                n == resources@.len(),
                rs == resources.deep_view(),
                models@.len() == i,
                forall|j: int| 0 <= j < i ==> (#[trigger] models@[j])@ == resource_model(rs, j),
            decreases n - i,
        {
            let resource = &resources[i];
            proof {
                assert(rs[i as int] == resource@);
            }
            let mut branches: Vec<ResourceBranch> = Vec::new();
            let mut b: usize = 0;
            while b < resource.patterns.len()
                invariant
                    b <= resource.patterns@.len(),
                    i < n,
                    n == resources@.len(),
                    rs == resources.deep_view(),
                    rs[i as int] == resource@,
                    branches@.len() == b,
                    forall|j: int|
                        0 <= j < b ==> (#[trigger] branches@[j])@ == branch_model(rs, i as int, j),
                decreases resource.patterns@.len() - b,
            {
                let pattern = &resource.patterns[b];
                proof {
                    assert(rs[i as int].patterns[b as int] == pattern@);
                }
                let branch = ResourceBranch {
                    id: branch_id_of(pattern),
                    pattern: pattern.duplicate(),
                    parent: find_parent(resources, i, pattern),
                };
                branches.push(branch);
                b += 1;
            }
            proof {
                assert(branches.deep_view() =~= resource_model(rs, i as int).branches);
            }
            let model = Resource {
                resource_type: resource.resource_type.clone(),
                branches,
                singular: clone_optional(&resource.singular),
                plural: clone_optional(&resource.plural),
                history: clone_strings(&resource.history),
                message_name: resource.message_name.clone(),
                source_file: resource.source_file.clone(),
            };
            models.push(model);
            i += 1;
        }

        // The references, resolved against the types
        let m = references.len();
        let mut resolved: Vec<Reference> = Vec::new();
        let mut i: usize = 0;
        while i < m
            invariant
                i <= m,
                m == references@.len(),
                refs == references.deep_view(),
                types.deep_view() == resource_types(rs),
                resolved@.len() == i,
                forall|j: int|
                    0 <= j < i ==> (#[trigger] resolved@[j])@ == reference_model(
                        resource_types(rs),
                        refs[j],
                    ),
            decreases m - i,
        {
            let reference = &references[i];
            proof {
                assert(refs[i as int] == reference@);
            }
            let target = match &reference.resource_type {
                Some(t) => first_index(&types, t.as_str(), types.len()),
                None => None,
            };
            let child_target = match &reference.child_type {
                Some(t) => first_index(&types, t.as_str(), types.len()),
                None => None,
            };
            resolved.push(
                Reference {
                    field_name: reference.field_name.clone(),
                    containing_message: reference.containing_message.clone(),
                    source_file: reference.source_file.clone(),
                    resource_type: clone_optional(&reference.resource_type),
                    child_type: clone_optional(&reference.child_type),
                    target,
                    child_target,
                },
            );
            i += 1;
        }
        let registry = Registry { resources: models, references: resolved };
        proof {
            assert(registry@.resources =~= Seq::new(rs.len(), |i: int| resource_model(rs, i)));
            assert(registry@.references =~= Seq::new(
                refs.len(),
                |i: int| reference_model(resource_types(rs), refs[i]),
            ));
        }
        proof {
            lemma_built_registry_wf(rs, refs);
        }
        Ok(registry)
    }
}

/// `s` humanized.
pub fn humanize_exec(s: &[char]) -> (out: Vec<char>)
    ensures
        out@ == humanize(s@),
{
    let mut out: Vec<char> = Vec::new();
    let mut k: usize = 0;
    while k < s.len()
        invariant
            k <= s@.len(),
            out@ == humanize_upto(s@, k as int),
        decreases s@.len() - k,
    {
        let c = s[k];
        let alnum = ('a' <= c && c <= 'z') || ('A' <= c && c <= 'Z') || ('0' <= c && c <= '9');
        if alnum {
            let starts = if k == 0 {
                true
            } else {
                let p = s[k - 1];
                !(('a' <= p && p <= 'z') || ('A' <= p && p <= 'Z') || ('0' <= p && p <= '9'))
            };
            if starts {
                out.push(to_upper_exec(c));
            } else {
                out.push(c);
            }
        }
        k += 1;
    }
    out
}

} // verus!

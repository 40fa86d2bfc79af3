//! What a pattern means for resource names: how values are formatted into a
//! name, how a candidate name is matched back into values, and which values a
//! name may hold.

use crate::error::{ParseError, ParseErrorModel};
use crate::pattern::{
    variable_names, variable_names_upto, ComponentModel, ResourcePattern, ResourcePatternComponent,
};
use crate::text::{
    chars_of, find_char, find_char_exec, lemma_find_char_bounds, occurs_at, occurs_at_exec,
    string_of,
};
use vstd::prelude::*;
use vstd::string::StringExecFns;

verus! {

/// The value at index `vi`; the empty text where there is none.
pub open spec fn value_at(values: Seq<Seq<char>>, vi: int) -> Seq<char> {
    if 0 <= vi < values.len() {
        values[vi]
    } else {
        Seq::empty()
    }
}

/// The text of the components from index `ci` on, with the values from index
/// `vi` on in the variable slots.
pub open spec fn format_from(
    cs: Seq<ComponentModel>,
    values: Seq<Seq<char>>,
    ci: int,
    vi: int,
) -> Seq<char>
    decreases cs.len() - ci,
{
    if ci < 0 || ci >= cs.len() {
        Seq::empty()
    } else {
        match cs[ci] {
            ComponentModel::Literal(text) => text + format_from(cs, values, ci + 1, vi),
            ComponentModel::Variable(_) => value_at(values, vi) + format_from(
                cs,
                values,
                ci + 1,
                vi + 1,
            ),
        }
    }
}

/// The resource name that a pattern gives for `values`: the literal text of
/// the pattern as it stands, with each variable slot replaced by its value.
pub open spec fn format_values(cs: Seq<ComponentModel>, values: Seq<Seq<char>>) -> Seq<char> {
    format_from(cs, values, 0, 0)
}

/// `captured`, followed by what the rest of a match captures, if it matches.
pub open spec fn with_captured(captured: Seq<Seq<char>>, rest: Option<Seq<Seq<char>>>) -> Option<
    Seq<Seq<char>>,
> {
    match rest {
        Some(r) => Some(captured + r),
        None => None,
    }
}

/// The values that the components from index `ci` on capture from `s[pos..]`.
///
/// A literal has to stand at `pos`. A variable takes the text up to the next
/// `/` (or the end), which must not be empty. At the end of the components the
/// text has to be used up.
pub open spec fn match_from(cs: Seq<ComponentModel>, s: Seq<char>, ci: int, pos: int) -> Option<
    Seq<Seq<char>>,
>
    decreases cs.len() - ci,
{
    if ci < 0 || ci >= cs.len() {
        if pos == s.len() {
            Some(Seq::empty())
        } else {
            None
        }
    } else {
        match cs[ci] {
            ComponentModel::Literal(text) => if occurs_at(s, pos, text) {
                match_from(cs, s, ci + 1, pos + text.len())
            } else {
                None
            },
            ComponentModel::Variable(_) => {
                let e = find_char(s, '/', pos);
                if 0 <= pos < e <= s.len() {
                    with_captured(seq![s.subrange(pos, e)], match_from(cs, s, ci + 1, e))
                } else {
                    None
                }
            },
        }
    }
}

/// The values that a pattern captures from the candidate name `s`, if the
/// candidate has the pattern's shape.
pub open spec fn match_pattern(cs: Seq<ComponentModel>, s: Seq<char>) -> Option<Seq<Seq<char>>> {
    match_from(cs, s, 0, 0)
}

/// A value that a variable may hold: not empty, and without `/`.
pub open spec fn valid_value(v: Seq<char>) -> bool {
    v.len() > 0 && forall|k: int| 0 <= k < v.len() ==> v[k] != '/'
}

/// Every value may be held.
pub open spec fn valid_values(values: Seq<Seq<char>>) -> bool {
    forall|i: int| 0 <= i < values.len() ==> valid_value(#[trigger] values[i])
}

/// The wildcard: the value that stands for "any".
pub open spec fn wildcard() -> Seq<char> {
    seq!['-']
}

/// One of the values is the wildcard.
pub open spec fn has_wildcard(values: Seq<Seq<char>>) -> bool {
    exists|i: int| 0 <= i < values.len() && #[trigger] values[i] == wildcard()
}

/// The index of the first of the first `k` values that may not be held.
pub open spec fn first_invalid_upto(values: Seq<Seq<char>>, k: int) -> Option<int>
    decreases k,
{
    if k <= 0 || k > values.len() {
        None
    } else {
        match first_invalid_upto(values, k - 1) {
            Some(i) => Some(i),
            None => if valid_value(values[k - 1]) {
                None
            } else {
                Some(k - 1)
            },
        }
    }
}

/// What is wrong with `values` as the values of a pattern's variables, if
/// anything: their number, or the first value that is empty or holds a `/`.
pub open spec fn values_error(cs: Seq<ComponentModel>, values: Seq<Seq<char>>) -> Option<
    ParseErrorModel,
> {
    let names = variable_names(cs);
    if values.len() != names.len() {
        Some(ParseErrorModel::InvalidFormat { reason: "wrong number of values"@ })
    } else {
        match first_invalid_upto(values, values.len() as int) {
            None => None,
            Some(i) => if values[i].len() == 0 {
                Some(
                    ParseErrorModel::MissingComponent {
                        component: names[i],
                        value: format_values(cs, values),
                    },
                )
            } else {
                Some(
                    ParseErrorModel::InvalidComponent {
                        component: names[i],
                        component_value: values[i],
                        value: format_values(cs, values),
                    },
                )
            },
        }
    }
}

/// Every variable is followed by the end of the pattern or by a literal that
/// starts with `/`: the shape in which a name can be read back.
pub open spec fn well_delimited(cs: Seq<ComponentModel>) -> bool {
    forall|i: int|
        0 <= i < cs.len() && #[trigger] cs[i] is Variable ==> i + 1 == cs.len() || (cs[i
            + 1] matches ComponentModel::Literal(text) && text.len() > 0 && text[0] == '/')
}

/// A pattern whose names can be read back: it is not empty, none of its
/// literals is empty, and it is well delimited.
pub open spec fn readable(cs: Seq<ComponentModel>) -> bool {
    &&& cs.len() > 0
    &&& well_delimited(cs)
    &&& forall|k: int|
        0 <= k < cs.len() ==> (#[trigger] cs[k] matches ComponentModel::Literal(text)
            ==> text.len() > 0)
}

/// The number of variables among the components from index `ci` on.
pub open spec fn variables_from(cs: Seq<ComponentModel>, ci: int) -> nat
    decreases cs.len() - ci,
{
    if ci < 0 || ci >= cs.len() {
        0
    } else if cs[ci] is Variable {
        1 + variables_from(cs, ci + 1)
    } else {
        variables_from(cs, ci + 1)
    }
}

/// What the first invalid value is: a value that may not be held, after
/// values that all may be; none exactly when every value may be held.
pub proof fn lemma_first_invalid(values: Seq<Seq<char>>, k: int)
    requires
        0 <= k <= values.len(),
    ensures
        match first_invalid_upto(values, k) {
            Some(i) => 0 <= i < k && !valid_value(values[i]) && forall|j: int|
                0 <= j < i ==> valid_value(#[trigger] values[j]),
            None => forall|j: int| 0 <= j < k ==> valid_value(#[trigger] values[j]),
        },
    decreases k,
{
    if k > 0 {
        lemma_first_invalid(values, k - 1);
    }
}

/// The number of variables from `ci` on and up to `ci` add up to all of them.
pub proof fn lemma_variables_split(cs: Seq<ComponentModel>, ci: int)
    requires
        0 <= ci <= cs.len(),
    ensures
        variable_names_upto(cs, ci).len() + variables_from(cs, ci) == variable_names(cs).len(),
    decreases cs.len() - ci,
{
    if ci < cs.len() {
        lemma_variables_split(cs, ci + 1);
    }
}

/// Where `c` next stands is where the text without `c` ends.
pub proof fn lemma_find_char_is(s: Seq<char>, c: char, from: int, e: int)
    requires
        0 <= from <= e <= s.len(),
        forall|k: int| from <= k < e ==> s[k] != c,
        e == s.len() || s[e] == c,
    ensures
        find_char(s, c, from) == e,
    decreases e - from,
{
    if from < e {
        lemma_find_char_is(s, c, from + 1, e);
    }
}

/// What a match captures, formatted again, is the text that was matched; the
/// captured values may all be held, and there is one for each variable.
pub proof fn lemma_match_sound(cs: Seq<ComponentModel>, s: Seq<char>, ci: int, pos: int)
    requires
        0 <= ci <= cs.len(),
        0 <= pos <= s.len(),
        match_from(cs, s, ci, pos) is Some,
    ensures
        ({
            let values = match_from(cs, s, ci, pos)->Some_0;
            &&& format_from(cs, values, ci, 0) == s.subrange(pos, s.len() as int)
            &&& valid_values(values)
            &&& values.len() == variables_from(cs, ci)
        }),
    decreases cs.len() - ci,
{
    let values = match_from(cs, s, ci, pos)->Some_0;
    let n = s.len() as int;
    if ci >= cs.len() {
        assert(s.subrange(pos, n) =~= Seq::<char>::empty());
    } else {
        match cs[ci] {
            ComponentModel::Literal(text) => {
                lemma_match_sound(cs, s, ci + 1, pos + text.len());
                assert(text + s.subrange(pos + text.len(), n) =~= s.subrange(pos, n));
            },
            ComponentModel::Variable(_) => {
                let e = find_char(s, '/', pos);
                lemma_find_char_bounds(s, '/', pos);
                lemma_match_sound(cs, s, ci + 1, e);
                let rest = match_from(cs, s, ci + 1, e)->Some_0;
                let head = s.subrange(pos, e);
                assert(values == seq![head] + rest);
                assert(values[0] == head);
                lemma_format_shift(cs, seq![head], rest, ci + 1, 0);
                assert(head + s.subrange(e, n) =~= s.subrange(pos, n));
                assert forall|i: int| 0 <= i < values.len() implies valid_value(
                    #[trigger] values[i],
                ) by {
                    if i > 0 {
                        assert(values[i] == rest[i - 1]);
                    }
                }
            },
        }
    }
}

/// Values that stand before the ones a format uses do not change it.
pub proof fn lemma_format_shift(
    cs: Seq<ComponentModel>,
    before: Seq<Seq<char>>,
    values: Seq<Seq<char>>,
    ci: int,
    vi: int,
)
    requires
        0 <= ci,
        0 <= vi,
    ensures
        format_from(cs, before + values, ci, before.len() + vi) == format_from(cs, values, ci, vi),
    decreases cs.len() - ci,
{
    if ci < cs.len() {
        lemma_format_shift(cs, before, values, ci + 1, vi);
        lemma_format_shift(cs, before, values, ci + 1, vi + 1);
        if vi < values.len() {
            assert((before + values)[before.len() + vi] == values[vi]);
        }
    }
}

/// A formatted name is read back as the values it was made of: for a
/// well-delimited pattern and values that may be held, one for each variable
/// from `ci` on, matching the text of the components from `ci` on gives back
/// exactly those values.
pub proof fn lemma_match_formatted(
    cs: Seq<ComponentModel>,
    values: Seq<Seq<char>>,
    before: Seq<char>,
    ci: int,
    vi: int,
)
    requires
        0 <= ci <= cs.len(),
        0 <= vi <= values.len(),
        well_delimited(cs),
        valid_values(values),
        values.len() - vi == variables_from(cs, ci),
        forall|k: int|
            0 <= k < cs.len() ==> (#[trigger] cs[k] matches ComponentModel::Literal(text)
                ==> text.len() > 0),
    ensures
        match_from(cs, before + format_from(cs, values, ci, vi), ci, before.len() as int) == Some(
            values.skip(vi),
        ),
    decreases cs.len() - ci,
{
    let tail = format_from(cs, values, ci, vi);
    let s = before + tail;
    let pos = before.len() as int;
    if ci >= cs.len() {
        assert(s =~= before);
        assert(values.skip(vi) =~= Seq::<Seq<char>>::empty());
    } else {
        match cs[ci] {
            ComponentModel::Literal(text) => {
                let rest = format_from(cs, values, ci + 1, vi);
                lemma_match_formatted(cs, values, before + text, ci + 1, vi);
                assert(s =~= (before + text) + rest);
                assert(s.subrange(pos, pos + text.len()) =~= text);
            },
            ComponentModel::Variable(_) => {
                let v = values[vi];
                let rest = format_from(cs, values, ci + 1, vi + 1);
                assert(valid_value(v));
                lemma_match_formatted(cs, values, before + v, ci + 1, vi + 1);
                assert(s =~= (before + v) + rest);
                let e = pos + v.len();
                assert(e == s.len() || s[e] == '/') by {
                    if ci + 1 < cs.len() {
                        assert(cs[ci] is Variable);
                        let text = cs[ci + 1]->Literal_0;
                        assert(rest == text + format_from(cs, values, ci + 2, vi + 1));
                        assert(s[e] == rest[0]);
                    } else {
                        assert(rest =~= Seq::<char>::empty());
                    }
                }
                assert forall|k: int| pos <= k < e implies s[k] != '/' by {
                    assert(s[k] == v[k - pos]);
                }
                lemma_find_char_is(s, '/', pos, e);
                assert(s.subrange(pos, e) =~= v);
                assert(seq![v] + values.skip(vi + 1) =~= values.skip(vi));
            },
        }
    }
}

/// Round trip of one pattern: for a readable pattern and values that may be
/// held, one for each variable, matching the formatted values gives back the
/// values.
pub proof fn lemma_format_then_match(cs: Seq<ComponentModel>, values: Seq<Seq<char>>)
    requires
        readable(cs),
        values_error(cs, values) is None,
    ensures
        match_pattern(cs, format_values(cs, values)) == Some(values),
{
    lemma_first_invalid(values, values.len() as int);
    lemma_variables_split(cs, 0);
    lemma_match_formatted(cs, values, Seq::empty(), 0, 0);
    assert(Seq::<char>::empty() + format_from(cs, values, 0, 0) =~= format_from(cs, values, 0, 0));
    assert(values.skip(0) =~= values);
}

/// The wildcard may be held by any variable.
pub proof fn lemma_wildcard_is_valid()
    ensures
        valid_value(wildcard()),
{
}

impl ResourcePattern {
    /// The resource name that this pattern gives for `values`.
    pub fn format_values(&self, values: &Vec<String>) -> (out: String)
        ensures
            out@ == format_values(self@.components, values.deep_view()),
    {
        let ghost cs = self@.components;
        let ghost vals = values.deep_view();
        let mut out = String::new();
        let mut vi: usize = 0;
        let mut ci: usize = 0;
        while ci < self.components.len()
            invariant
                ci <= self.components@.len(),
                vi <= ci,
                cs == self@.components,
                vals == values.deep_view(),
                format_values(cs, vals) == out@ + format_from(cs, vals, ci as int, vi as int),
            decreases self.components@.len() - ci,
        {
            let ghost out_before = out@;
            proof {
                assert(cs[ci as int] == self.components@[ci as int]@);
            }
            match &self.components[ci] {
                ResourcePatternComponent::Literal(text) => {
                    out.append(text.as_str());
                    proof {
                        assert(out_before + (text@ + format_from(cs, vals, ci + 1, vi as int))
                            =~= out@ + format_from(cs, vals, ci + 1, vi as int));
                    }
                },
                ResourcePatternComponent::Variable(_) => {
                    if vi < values.len() {
                        out.append(values[vi].as_str());
                    }
                    proof {
                        assert(out@ == out_before + value_at(vals, vi as int)) by {
                            if vi < values@.len() {
                                assert(vals[vi as int] == values@[vi as int]@);
                            } else {
                                assert(out_before + Seq::<char>::empty() =~= out_before);
                            }
                        }
                        assert(out_before + (value_at(vals, vi as int) + format_from(
                            cs,
                            vals,
                            ci + 1,
                            vi + 1,
                        )) =~= out@ + format_from(cs, vals, ci + 1, vi + 1));
                    }
                    vi += 1;
                },
            }
            ci += 1;
        }
        proof {
            assert(out@ + Seq::<char>::empty() =~= out@);
        }
        out
    }

    /// The values that this pattern captures from `candidate`, if the
    /// candidate has the pattern's shape.
    pub fn match_candidate(&self, candidate: &str) -> (out: Option<Vec<String>>)
        ensures
            out.deep_view() == match_pattern(self@.components, candidate@),
    {
        let s = chars_of(candidate);
        let ghost cs = self@.components;
        let mut captured: Vec<String> = Vec::new();
        let mut pos: usize = 0;
        let mut ci: usize = 0;
        proof {
            assert(captured.deep_view() =~= Seq::<Seq<char>>::empty());
            assert(forall|r: Seq<Seq<char>>| Seq::<Seq<char>>::empty() + r =~= r);
        }
        while ci < self.components.len()
            invariant
                ci <= self.components@.len(),
                pos <= s@.len(),
                s@ == candidate@,
                cs == self@.components,
                match_pattern(cs, s@) == with_captured(
                    captured.deep_view(),
                    match_from(cs, s@, ci as int, pos as int),
                ),
            decreases self.components@.len() - ci,
        {
            proof {
                assert(cs[ci as int] == self.components@[ci as int]@);
            }
            match &self.components[ci] {
                ResourcePatternComponent::Literal(text) => {
                    let lit = chars_of(text.as_str());
                    if !occurs_at_exec(s.as_slice(), pos, lit.as_slice()) {
                        return None;
                    }
                    pos = pos + lit.len();
                },
                ResourcePatternComponent::Variable(_) => {
                    let e = find_char_exec(s.as_slice(), '/', pos);
                    if e == pos {
                        return None;
                    }
                    let ghost before = captured.deep_view();
                    let value = string_of(s.as_slice(), pos, e);
                    let ghost seg = value@;
                    captured.push(value);
                    proof {
                        assert(captured.deep_view() =~= before.push(seg));
                        let rest = match_from(cs, s@, ci + 1, e as int);
                        if rest is Some {
                            assert(before + (seq![seg] + rest->Some_0) =~= before.push(seg)
                                + rest->Some_0);
                        }
                    }
                    pos = e;
                },
            }
            ci += 1;
        }
        if pos == s.len() {
            proof {
                assert(captured.deep_view() + Seq::<Seq<char>>::empty() =~= captured.deep_view());
            }
            Some(captured)
        } else {
            None
        }
    }

    /// Whether the names of this pattern can be read back.
    pub fn is_readable(&self) -> (b: bool)
        ensures
            b == readable(self@.components),
    {
        let n = self.components.len();
        if n == 0 {
            return false;
        }
        let mut k: usize = 0;
        while k < n
            invariant
                k <= n,
                n == self.components@.len(),
                forall|j: int|
                    0 <= j < k ==> (#[trigger] self@.components[j] matches ComponentModel::Literal(
                        text,
                    ) ==> text.len() > 0),
                forall|j: int|
                    0 <= j < k && #[trigger] self@.components[j] is Variable ==> j + 1 == n || (
                    self@.components[j + 1] matches ComponentModel::Literal(text) && text.len() > 0
                        && text[0] == '/'),
            decreases n - k,
        {
            proof {
                assert(self@.components[k as int] == self.components@[k as int]@);
            }
            match &self.components[k] {
                ResourcePatternComponent::Literal(text) => {
                    if text.as_str().is_empty() {
                        return false;
                    }
                },
                ResourcePatternComponent::Variable(_) => {
                    if k + 1 < n {
                        proof {
                            assert(self@.components[k + 1] == self.components@[k + 1]@);
                        }
                        let delimited = match &self.components[k + 1] {
                            ResourcePatternComponent::Literal(next) => {
                                let text = chars_of(next.as_str());
                                text.len() > 0 && text[0] == '/'
                            },
                            ResourcePatternComponent::Variable(_) => false,
                        };
                        if !delimited {
                            return false;
                        }
                    }
                },
            }
            k += 1;
        }
        true
    }

    /// Check that `values` can be the values of this pattern's variables.
    pub fn check_values(&self, values: &Vec<String>) -> (r: Result<(), ParseError>)
        ensures
            match r {
                Ok(_) => values_error(self@.components, values.deep_view()) is None,
                Err(e) => values_error(self@.components, values.deep_view()) == Some(e@),
            },
    {
        let names = self.variables();
        if values.len() != names.len() {
            return Err(ParseError::InvalidFormat { reason: "wrong number of values".to_owned() });
        }
        let mut i: usize = 0;
        while i < values.len()
            invariant
                i <= values@.len(),
                values@.len() == names@.len(),
                names.deep_view() == variable_names(self@.components),
                first_invalid_upto(values.deep_view(), i as int) is None,
            decreases values@.len() - i,
        {
            let v = chars_of(values[i].as_str());
            proof {
                assert(values.deep_view()[i as int] == values@[i as int]@);
                lemma_find_char_bounds(v@, '/', 0);
            }
            if v.len() == 0 {
                proof {
                    lemma_invalid_stays(values.deep_view(), i + 1, values@.len() as int);
                }
                return Err(
                    ParseError::MissingComponent {
                        component: names[i].to_owned(),
                        value: self.format_values(values),
                    },
                );
            }
            if find_char_exec(v.as_slice(), '/', 0) < v.len() {
                proof {
                    lemma_invalid_stays(values.deep_view(), i + 1, values@.len() as int);
                }
                return Err(
                    ParseError::InvalidComponent {
                        component: names[i].to_owned(),
                        component_value: values[i].clone(),
                        value: self.format_values(values),
                    },
                );
            }
            i += 1;
        }
        Ok(())
    }
}

/// Once a value is found that may not be held, later values change nothing.
pub proof fn lemma_invalid_stays(values: Seq<Seq<char>>, k: int, n: int)
    requires
        0 <= k <= n <= values.len(),
        first_invalid_upto(values, k) is Some,
    ensures
        first_invalid_upto(values, n) == first_invalid_upto(values, k),
    decreases n - k,
{
    if k < n {
        lemma_invalid_stays(values, k, n - 1);
    }
}

/// Whether one of the values is the wildcard `-`.
pub fn any_wildcard(values: &Vec<String>) -> (found: bool)
    ensures
        found == has_wildcard(values.deep_view()),
{
    let mut i: usize = 0;
    while i < values.len()
        invariant
            i <= values@.len(),
            forall|j: int| 0 <= j < i ==> (#[trigger] values.deep_view()[j]) != wildcard(),
        decreases values@.len() - i,
    {
        let v = chars_of(values[i].as_str());
        proof {
            assert(values.deep_view()[i as int] == values@[i as int]@);
        }
        if v.len() == 1 && v[0] == '-' {
            proof {
                assert(v@ =~= wildcard());
            }
            return true;
        }
        proof {
            if v@ == wildcard() {
                assert(v@.len() == 1 && v@[0] == '-');
            }
        }
        i += 1;
    }
    false
}

} // verus!

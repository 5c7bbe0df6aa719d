//! The parameters of a request's URL.

use crate::text::{blank, is_blank, lemma_push_contains, white_space};
use vstd::prelude::*;

verus! {

/// The pairs that `url::form_urlencoded::parse` reads out of a query string.
pub uninterp spec fn form_pairs(query: Seq<char>) -> Seq<(Seq<char>, Seq<char>)>;

/// Calls `url::form_urlencoded::parse` on the bytes of `query` and collects the owned pairs.
/// Claimed: the pairs depend on nothing but the query string.
#[verifier::external_body]
fn parse_form(query: &str) -> (res: Vec<(String, String)>)
    ensures
        res.deep_view() == form_pairs(query@),
{
    url::form_urlencoded::parse(query.as_bytes()).into_owned().collect()
}

/// The values of `key` that are not blank, in order.
pub open spec fn values_of(params: Seq<(Seq<char>, Seq<char>)>, key: Seq<char>) -> Seq<Seq<char>> {
    params.filter_map(
        |param: (Seq<char>, Seq<char>)|
            if param.0 == key && !blank(param.1) {
                Some(param.1)
            } else {
                None
            },
    )
}

/// The value of the first parameter named `key`; none where it is blank.
pub open spec fn first_value(params: Seq<(Seq<char>, Seq<char>)>, key: Seq<char>) -> Option<
    Seq<char>,
>
    decreases params.len(),
{
    if params.len() == 0 {
        None
    } else if params[0].0 != key {
        first_value(params.drop_first(), key)
    } else if blank(params[0].1) {
        None
    } else {
        Some(params[0].1)
    }
}

/// The parameters of a request: those of its query string, or none where it has no query.
pub open spec fn params_of(query: Option<&str>) -> Seq<(Seq<char>, Seq<char>)> {
    match query {
        Some(text) => form_pairs(text@),
        None => Seq::empty(),
    }
}

/// The parameters of a request: those of its query string, or none where it has no query.
/// Repeated parameters are all there, in order.
pub fn query_params(query: Option<&str>) -> (res: Vec<(String, String)>)
    ensures
        res.deep_view() == params_of(query),
{
    match query {
        Some(text) => parse_form(text),
        None => {
            let none: Vec<(String, String)> = Vec::new();
            assert(none.deep_view() =~= Seq::<(Seq<char>, Seq<char>)>::empty());
            none
        },
    }
}

/// Collect the values of a repeated query parameter, leaving out those that are blank.
pub fn collect_param(params: &[(String, String)], key: &str) -> (res: Vec<String>)
    ensures
        res.deep_view() == values_of(params.deep_view(), key@),
{
    let name: String = key.to_string();
    let ghost pairs = params.deep_view();
    let ghost pick = |param: (Seq<char>, Seq<char>)|
        if param.0 == key@ && !blank(param.1) {
            Some(param.1)
        } else {
            None
        };
    let mut res: Vec<String> = Vec::new();
    let mut i: usize = 0;
    assert(pairs.take(0) =~= Seq::empty());
    assert(res.deep_view() =~= pairs.take(0).filter_map(pick));
    while i < params.len()
        invariant
            i <= params@.len(),
            name@ == key@,
            pairs == params.deep_view(),
            pick == (|param: (Seq<char>, Seq<char>)|
                if param.0 == key@ && !blank(param.1) {
                    Some(param.1)
                } else {
                    None
                }),
            res.deep_view() == pairs.take(i as int).filter_map(pick),
        decreases params@.len() - i,
    {
        let ghost before = res.deep_view();
        proof {
            pairs.lemma_filter_map_take_succ(pick, i as int);
        }
        if params[i].0 == name && !is_blank(params[i].1.as_str()) {
            res.push(params[i].1.clone());
            assert(res.deep_view() =~= before.push(pairs[i as int].1));
        }
        assert(res.deep_view() =~= pairs.take(i + 1).filter_map(pick));
        i = i + 1;
    }
    assert(pairs.take(i as int) =~= pairs);
    res
}

/// The value of the first query parameter named `key`, unless it is blank.
pub fn first_param(params: &[(String, String)], key: &str) -> (res: Option<String>)
    ensures
        res.deep_view() == first_value(params.deep_view(), key@),
{
    let name: String = key.to_string();
    let ghost pairs = params.deep_view();
    let mut i: usize = 0;
    assert(pairs.skip(0) =~= pairs);
    while i < params.len()
        invariant
            i <= params@.len(),
            name@ == key@,
            pairs == params.deep_view(),
            first_value(pairs, key@) == first_value(pairs.skip(i as int), key@),
        decreases params@.len() - i,
    {
        assert(pairs.skip(i as int).drop_first() =~= pairs.skip(i + 1));
        if params[i].0 == name {
            if is_blank(params[i].1.as_str()) {
                return None;
            }
            return Some(params[i].1.clone());
        }
        i = i + 1;
    }
    None
}

/// A repeated parameter is collected whole: its values are those of all parameters of that
/// name that are not blank.
pub proof fn repeated_params_are_all_collected(
    params: Seq<(Seq<char>, Seq<char>)>,
    key: Seq<char>,
    value: Seq<char>,
)
    ensures
        values_of(params, key).contains(value) <==> params.contains((key, value)) && !blank(value),
    decreases params.len(),
{
    if params.len() > 0 {
        let earlier = params.drop_last();
        let last = params.last();
        repeated_params_are_all_collected(earlier, key, value);
        assert(params =~= earlier.push(last));
        lemma_push_contains(earlier, last, (key, value));
        lemma_push_contains(values_of(earlier, key), last.1, value);
        assert(values_of(params, key) =~= if last.0 == key && !blank(last.1) {
            values_of(earlier, key).push(last.1)
        } else {
            values_of(earlier, key)
        });
    }
}

/// Whether `at` are the places of the parameters named `key` that are not blank, in order, and
/// `values` are their values.
pub open spec fn taken_from(
    params: Seq<(Seq<char>, Seq<char>)>,
    key: Seq<char>,
    values: Seq<Seq<char>>,
    at: Seq<int>,
) -> bool {
    &&& at.len() == values.len()
    &&& forall|k: int|
        0 <= k < at.len() ==> 0 <= #[trigger] at[k] < params.len() && params[at[k]] == (
            key,
            values[k],
        )
    &&& forall|k: int, l: int| 0 <= k < l < at.len() ==> #[trigger] at[k] < #[trigger] at[l]
    &&& forall|i: int|
        0 <= i < params.len() ==> (at.contains(i) <==> (#[trigger] params[i]).0 == key && exists|
            c: int,
        | 0 <= c < params[i].1.len() && !white_space(#[trigger] params[i].1[c]))
}

/// Whether `values` are the values of all parameters named `key` that are not blank, in order.
pub open spec fn collected(
    params: Seq<(Seq<char>, Seq<char>)>,
    key: Seq<char>,
    values: Seq<Seq<char>>,
) -> bool {
    exists|at: Seq<int>| taken_from(params, key, values, at)
}

/// A repeated parameter is collected in order: all of its values that are not blank, as often as
/// they are given, and nothing else.
pub proof fn values_are_collected_in_order(params: Seq<(Seq<char>, Seq<char>)>, key: Seq<char>)
    ensures
        collected(params, key, values_of(params, key)),
    decreases params.len(),
{
    let values = values_of(params, key);
    if params.len() == 0 {
        assert(taken_from(params, key, values, Seq::empty()));
    } else {
        let earlier = params.drop_last();
        let last = params.last();
        let n = earlier.len() as int;
        values_are_collected_in_order(earlier, key);
        let before = values_of(earlier, key);
        let at0 = choose|at: Seq<int>| taken_from(earlier, key, before, at);
        let here = last.0 == key && !blank(last.1);
        assert(blank(last.1) <==> !(exists|c: int|
            0 <= c < last.1.len() && !white_space(#[trigger] last.1[c])));
        assert(values =~= if here {
            before.push(last.1)
        } else {
            before
        });
        let at = if here {
            at0.push(n)
        } else {
            at0
        };
        assert forall|k: int| 0 <= k < at.len() implies 0 <= #[trigger] at[k] < params.len()
            && params[at[k]] == (key, values[k]) by {
            if k < at0.len() {
                assert(at[k] == at0[k]);
                assert(earlier[at0[k]] == params[at0[k]]);
            }
        }
        assert forall|k: int, l: int| 0 <= k < l < at.len() implies #[trigger] at[k]
            < #[trigger] at[l] by {
            assert(at[k] == at0[k]);
            if l < at0.len() {
                assert(at[l] == at0[l]);
            }
        }
        assert forall|i: int| 0 <= i < params.len() implies (at.contains(i) <==> (
        #[trigger] params[i]).0 == key && exists|c: int|
            0 <= c < params[i].1.len() && !white_space(#[trigger] params[i].1[c])) by {
            lemma_push_contains(at0, n, i);
            if i < n {
                assert(earlier[i] == params[i]);
            } else if at0.contains(n) {
                let k = at0.index_of(n);
                assert(0 <= at0[k] < earlier.len());
            }
        }
        assert(taken_from(params, key, values, at));
    }
}

/// The first parameter of a name counts, and no other of that name: its value where it is not
/// blank, else none.
pub proof fn the_first_parameter_counts(params: Seq<(Seq<char>, Seq<char>)>, key: Seq<char>, i: int)
    requires
        0 <= i < params.len(),
        params[i].0 == key,
        forall|j: int| 0 <= j < i ==> (#[trigger] params[j]).0 != key,
    ensures
        first_value(params, key) == if exists|c: int|
            0 <= c < params[i].1.len() && !white_space(#[trigger] params[i].1[c]) {
            Some(params[i].1)
        } else {
            None
        },
    decreases params.len(),
{
    if i > 0 {
        let rest = params.drop_first();
        assert(params[0].0 != key);
        assert(rest[i - 1] == params[i]);
        assert forall|j: int| 0 <= j < i - 1 implies (#[trigger] rest[j]).0 != key by {
            assert(rest[j] == params[j + 1]);
        }
        the_first_parameter_counts(rest, key, i - 1);
    }
}

/// A parameter that is not given has no value.
pub proof fn a_missing_parameter_has_no_value(params: Seq<(Seq<char>, Seq<char>)>, key: Seq<char>)
    requires
        forall|j: int| 0 <= j < params.len() ==> (#[trigger] params[j]).0 != key,
    ensures
        first_value(params, key) is None,
        values_of(params, key).len() == 0,
    decreases params.len(),
{
    if params.len() > 0 {
        let rest = params.drop_first();
        assert forall|j: int| 0 <= j < rest.len() implies (#[trigger] rest[j]).0 != key by {
            assert(rest[j] == params[j + 1]);
        }
        assert(params[0].0 != key);
        a_missing_parameter_has_no_value(rest, key);
    }
    values_are_collected_in_order(params, key);
    let at = choose|at: Seq<int>| taken_from(params, key, values_of(params, key), at);
    if at.len() > 0 {
        assert(params[at[0]].0 == key);
    }
}

/// A request without a query has no parameters; one with a query has those that are read out of
/// it.
pub proof fn parameters_are_those_of_the_query(query: &str)
    ensures
        params_of(Some(query)) == form_pairs(query@),
        params_of(None).len() == 0,
{
}

} // verus!

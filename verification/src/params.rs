//! Classification of supplied argument tokens against a declared parameter
//! schema: positional counting, named-flag matching, and value extraction.

use vstd::prelude::*;

use crate::menu::param_name;
use crate::menu::Item;
use crate::menu::ItemType;
use crate::menu::Parameter;
use crate::token::str_eq;

verus! {

/// Describes the ways in which the API can fail.
#[derive(Debug, Clone, PartialEq, Eq, Structural)]
pub enum Error {
    /// Tried to find arguments on an item that was not a `Callback` item.
    NotACallbackItem,
    /// The argument you asked for was not found.
    NotFound,
}

/// A named token: one that begins with `--`.
pub open spec fn is_named_token(t: Seq<char>) -> bool {
    t.len() >= 2 && t[0] == '-' && t[1] == '-'
}

/// Decides `is_named_token` on a concrete token.
pub fn token_is_named(t: &str) -> (r: bool)
    ensures
        r == is_named_token(t@),
{
    let n = t.unicode_len();
    n >= 2 && t.get_char(0) == '-' && t.get_char(1) == '-'
}

/// The positional tokens: the supplied tokens that do not begin with `--`,
/// in order.
pub open spec fn positionals(tokens: Seq<Seq<char>>) -> Seq<Seq<char>>
    decreases tokens.len(),
{
    if tokens.len() == 0 {
        Seq::empty()
    } else {
        let rest = positionals(tokens.drop_last());
        if is_named_token(tokens.last()) {
            rest
        } else {
            rest.push(tokens.last())
        }
    }
}

pub proof fn lemma_positionals_len(tokens: Seq<Seq<char>>)
    ensures
        0 <= positionals(tokens).len() <= tokens.len(),
    decreases tokens.len(),
{
    if tokens.len() > 0 {
        lemma_positionals_len(tokens.drop_last());
    }
}

/// Extending the token list by one token appends it to the positionals
/// exactly when it is not a named token.
pub proof fn lemma_positionals_take_step(tokens: Seq<Seq<char>>, i: int)
    requires
        0 <= i < tokens.len(),
    ensures
        positionals(tokens.take(i + 1)) == if is_named_token(tokens[i]) {
            positionals(tokens.take(i))
        } else {
            positionals(tokens.take(i)).push(tokens[i])
        },
{
    assert(tokens.take(i + 1).drop_last() =~= tokens.take(i));
    assert(tokens.take(i + 1).last() == tokens[i]);
}

/// The positionals of a prefix are a prefix of the positionals.
pub proof fn lemma_positionals_concat(a: Seq<Seq<char>>, b: Seq<Seq<char>>)
    ensures
        positionals(a + b) == positionals(a) + positionals(b),
    decreases b.len(),
{
    if b.len() == 0 {
        assert(a + b =~= a);
        assert(positionals(a) + positionals(b) =~= positionals(a));
    } else {
        lemma_positionals_concat(a, b.drop_last());
        assert((a + b).drop_last() =~= a + b.drop_last());
        assert((a + b).last() == b.last());
        if !is_named_token(b.last()) {
            assert((positionals(a) + positionals(b.drop_last())).push(b.last()) =~= positionals(a)
                + positionals(b.drop_last()).push(b.last()));
        }
    }
}

/// The number of `Mandatory` parameters in the schema.
pub open spec fn mandatory_count(params: Seq<Parameter>) -> int
    decreases params.len(),
{
    if params.len() == 0 {
        0
    } else {
        mandatory_count(params.drop_last()) + if params.last() is Mandatory {
            1int
        } else {
            0int
        }
    }
}

/// The number of `Optional` parameters in the schema.
pub open spec fn optional_count(params: Seq<Parameter>) -> int
    decreases params.len(),
{
    if params.len() == 0 {
        0
    } else {
        optional_count(params.drop_last()) + if params.last() is Optional {
            1int
        } else {
            0int
        }
    }
}

pub proof fn lemma_counts_bounds(params: Seq<Parameter>)
    ensures
        0 <= mandatory_count(params),
        0 <= optional_count(params),
        mandatory_count(params) + optional_count(params) <= params.len(),
    decreases params.len(),
{
    if params.len() > 0 {
        lemma_counts_bounds(params.drop_last());
    }
}

/// The one-based position of parameter `i` among the `Mandatory` parameters.
pub open spec fn mandatory_ordinal(params: Seq<Parameter>, i: int) -> int {
    mandatory_count(params.take(i + 1))
}

/// The one-based position of parameter `i` among the `Optional` parameters.
pub open spec fn optional_ordinal(params: Seq<Parameter>, i: int) -> int {
    optional_count(params.take(i + 1))
}

/// The parameter that a lookup by name resolves to: the declaration scan
/// keeps the last parameter whose name matches.
pub open spec fn find_param(params: Seq<Parameter>, name: Seq<char>) -> Option<int>
    decreases params.len(),
{
    if params.len() == 0 {
        None
    } else if param_name(params.last()) == name {
        Some((params.len() - 1) as int)
    } else {
        find_param(params.drop_last(), name)
    }
}

pub proof fn lemma_find_param_props(params: Seq<Parameter>, name: Seq<char>)
    ensures
        match find_param(params, name) {
            Some(i) => 0 <= i < params.len() && param_name(params[i]) == name,
            None => forall|k: int| 0 <= k < params.len() ==> param_name(params[k]) != name,
        },
    decreases params.len(),
{
    if params.len() > 0 && param_name(params.last()) != name {
        let rest = params.drop_last();
        lemma_find_param_props(rest, name);
        match find_param(params, name) {
            Some(i) => {
                assert(params[i] == rest[i]);
            },
            None => {
                assert forall|k: int| 0 <= k < params.len() implies param_name(params[k]) != name by {
                    if k < params.len() - 1 {
                        assert(params[k] == rest[k]);
                    }
                }
            },
        }
    }
}

/// A token that supplies the `Named` parameter `name`: exactly `--name`.
pub open spec fn named_flag_matches(t: Seq<char>, name: Seq<char>) -> bool {
    t.len() == name.len() + 2 && is_named_token(t) && t.skip(2) == name
}

/// A token that supplies a value for the `NamedValue` parameter `name`:
/// `--name=` followed by anything (possibly nothing).
pub open spec fn named_value_matches(t: Seq<char>, name: Seq<char>) -> bool {
    &&& t.len() >= name.len() + 3
    &&& is_named_token(t)
    &&& t.subrange(2, name.len() as int + 2) == name
    &&& t[name.len() as int + 2] == '='
}

/// The value carried by a token that `named_value_matches` accepts: what
/// follows the `=`.
pub open spec fn named_value_payload(t: Seq<char>, name: Seq<char>) -> Seq<char> {
    t.skip(name.len() as int + 3)
}

/// The first token that supplies a value for `name`, if any.
pub open spec fn first_named_value(tokens: Seq<Seq<char>>, name: Seq<char>) -> Option<int>
    decreases tokens.len(),
{
    if tokens.len() == 0 {
        None
    } else if named_value_matches(tokens.first(), name) {
        Some(0)
    } else {
        match first_named_value(tokens.drop_first(), name) {
            Some(j) => Some(j + 1),
            None => None,
        }
    }
}

pub proof fn lemma_counts_concat(a: Seq<Parameter>, b: Seq<Parameter>)
    ensures
        mandatory_count(a + b) == mandatory_count(a) + mandatory_count(b),
        optional_count(a + b) == optional_count(a) + optional_count(b),
    decreases b.len(),
{
    if b.len() == 0 {
        assert(a + b =~= a);
    } else {
        lemma_counts_concat(a, b.drop_last());
        assert((a + b).drop_last() =~= a + b.drop_last());
        assert((a + b).last() == b.last());
    }
}

pub proof fn lemma_counts_take_le(params: Seq<Parameter>, j: int)
    requires
        0 <= j <= params.len(),
    ensures
        mandatory_count(params.take(j)) <= mandatory_count(params),
        optional_count(params.take(j)) <= optional_count(params),
{
    assert(params.take(j) + params.skip(j) =~= params);
    lemma_counts_concat(params.take(j), params.skip(j));
    lemma_counts_bounds(params.skip(j));
}

/// `first_named_value` returns the first match and nothing else.
pub proof fn lemma_first_named_value_is(tokens: Seq<Seq<char>>, name: Seq<char>, j: int)
    requires
        0 <= j <= tokens.len(),
        forall|k: int| 0 <= k < j ==> !named_value_matches(tokens[k], name),
        j < tokens.len() ==> named_value_matches(tokens[j], name),
    ensures
        j < tokens.len() ==> first_named_value(tokens, name) == Some(j),
        j == tokens.len() ==> first_named_value(tokens, name) is None,
    decreases tokens.len(),
{
    if tokens.len() > 0 && j > 0 {
        let rest = tokens.drop_first();
        assert(forall|k: int| 0 <= k < rest.len() ==> rest[k] == tokens[k + 1]);
        lemma_first_named_value_is(rest, name, j - 1);
    }
}

/// Decides `named_flag_matches` on a concrete token.
pub fn flag_matches(t: &str, name: &str) -> (r: bool)
    ensures
        r == named_flag_matches(t@, name@),
{
    let tlen = t.unicode_len();
    let nlen = name.unicode_len();
    if tlen < 2 || t.get_char(0) != '-' || t.get_char(1) != '-' {
        return false;
    }
    if tlen - 2 != nlen {
        return false;
    }
    let tail = t.substring_char(2, tlen);
    proof {
        assert(tail@ =~= t@.skip(2));
    }
    str_eq(tail, name)
}

/// Decides `named_value_matches` on a concrete token.
pub fn value_matches(t: &str, name: &str) -> (r: bool)
    ensures
        r == named_value_matches(t@, name@),
{
    let tlen = t.unicode_len();
    let nlen = name.unicode_len();
    if tlen < 2 || t.get_char(0) != '-' || t.get_char(1) != '-' {
        return false;
    }
    if tlen < 3 || tlen - 3 < nlen {
        return false;
    }
    if t.get_char(nlen + 2) != '=' {
        return false;
    }
    let mid = t.substring_char(2, nlen + 2);
    str_eq(mid, name)
}

/// Extracts the value behind the `=` of a token whose first `name_len + 3`
/// characters are `--`, a name, and `=`.
pub fn value_payload(t: &str, name_len: usize) -> (r: String)
    requires
        name_len + 3 <= t@.len(),
    ensures
        r@ == t@.skip(name_len as int + 3),
{
    let tlen = t.unicode_len();
    let sub = t.substring_char(name_len + 3, tlen);
    proof {
        assert(sub@ =~= t@.skip(name_len as int + 3));
    }
    sub.to_owned()
}

/// The `k`-th positional token, counting from one; nothing if fewer than
/// `k` positional tokens were supplied.
pub open spec fn nth_positional(tokens: Seq<Seq<char>>, k: int) -> Option<Seq<char>> {
    let pos = positionals(tokens);
    if 1 <= k <= pos.len() {
        Some(pos[k - 1])
    } else {
        None
    }
}

/// What a lookup of `name` against the schema and the supplied tokens
/// yields; the rules of each parameter kind in one place.
pub open spec fn spec_find_argument(
    params: Seq<Parameter>,
    tokens: Seq<Seq<char>>,
    name: Seq<char>,
) -> Result<Option<Seq<char>>, Error> {
    match find_param(params, name) {
        None => Err(Error::NotFound),
        Some(i) => match params[i] {
            Parameter::Mandatory { .. } => Ok(nth_positional(tokens, mandatory_ordinal(params, i))),
            Parameter::Optional { .. } => Ok(
                nth_positional(tokens, mandatory_count(params) + optional_ordinal(params, i)),
            ),
            Parameter::Named { .. } => Ok(
                if exists|j: int| 0 <= j < tokens.len() && named_flag_matches(tokens[j], name) {
                    Some(Seq::<char>::empty())
                } else {
                    None
                },
            ),
            Parameter::NamedValue { .. } => Ok(
                match first_named_value(tokens, name) {
                    Some(j) => Some(named_value_payload(tokens[j], name)),
                    None => None,
                },
            ),
        },
    }
}

/// An executable lookup result agrees with the specified one.
pub open spec fn finder_result_matches(
    r: Result<Option<String>, Error>,
    s: Result<Option<Seq<char>>, Error>,
) -> bool {
    match (r, s) {
        (Ok(Some(v)), Ok(Some(w))) => v@ == w,
        (Ok(None), Ok(None)) => true,
        (Err(e1), Err(e2)) => e1 == e2,
        _ => false,
    }
}

/// The `k`-th positional token of the list, if that many were supplied.
fn find_positional(argument_list: &Vec<String>, k: usize) -> (r: Option<String>)
    requires
        1 <= k,
    ensures
        match nth_positional(argument_list.deep_view(), k as int) {
            Some(v) => r matches Some(s) && s@ == v,
            None => r is None,
        },
{
    let ghost dv = argument_list.deep_view();
    let n = argument_list.len();
    let mut seen: usize = 0;
    let mut t: usize = 0;
    proof {
        assert(dv.take(0) =~= Seq::<Seq<char>>::empty());
    }
    while t < n
        invariant
            t <= n,
            n == argument_list@.len(),
            dv == argument_list.deep_view(),
            1 <= k,
            seen == positionals(dv.take(t as int)).len(),
            seen < k,
        decreases n - t,
    {
        proof {
            lemma_positionals_take_step(dv, t as int);
            assert(dv[t as int] == argument_list@[t as int]@);
        }
        let tok = &argument_list[t];
        if !token_is_named(tok.as_str()) {
            seen = seen + 1;
            if seen == k {
                proof {
                    lemma_positionals_concat(dv.take(t as int + 1), dv.skip(t as int + 1));
                    assert(dv.take(t as int + 1) + dv.skip(t as int + 1) =~= dv);
                    assert(positionals(dv)[k - 1] == dv[t as int]);
                    lemma_positionals_len(dv.skip(t as int + 1));
                }
                return Some(argument_list[t].clone());
            }
        }
        t = t + 1;
    }
    proof {
        assert(dv.take(n as int) =~= dv);
    }
    None
}

/// Whether any supplied token is exactly `--name`.
fn find_flag(argument_list: &Vec<String>, name: &str) -> (r: bool)
    ensures
        r == (exists|j: int|
            0 <= j < argument_list.deep_view().len() && named_flag_matches(
                argument_list.deep_view()[j],
                name@,
            )),
{
    let ghost dv = argument_list.deep_view();
    let n = argument_list.len();
    let mut t: usize = 0;
    while t < n
        invariant
            t <= n,
            n == argument_list@.len(),
            dv == argument_list.deep_view(),
            forall|j: int| 0 <= j < t ==> !named_flag_matches(dv[j], name@),
        decreases n - t,
    {
        proof {
            assert(dv[t as int] == argument_list@[t as int]@);
        }
        if flag_matches(argument_list[t].as_str(), name) {
            assert(named_flag_matches(dv[t as int], name@));
            return true;
        }
        t = t + 1;
    }
    false
}

/// The value of the first token supplying `--name=...`, if any.
fn find_named_value(argument_list: &Vec<String>, name: &str) -> (r: Option<String>)
    ensures
        match first_named_value(argument_list.deep_view(), name@) {
            Some(j) => r matches Some(s) && s@ == named_value_payload(
                argument_list.deep_view()[j],
                name@,
            ),
            None => r is None,
        },
{
    let ghost dv = argument_list.deep_view();
    let n = argument_list.len();
    let nlen = name.unicode_len();
    let mut t: usize = 0;
    while t < n
        invariant
            t <= n,
            n == argument_list@.len(),
            dv == argument_list.deep_view(),
            nlen == name@.len(),
            forall|j: int| 0 <= j < t ==> !named_value_matches(dv[j], name@),
        decreases n - t,
    {
        proof {
            assert(dv[t as int] == argument_list@[t as int]@);
        }
        if value_matches(argument_list[t].as_str(), name) {
            proof {
                lemma_first_named_value_is(dv, name@, t as int);
            }
            let v = value_payload(argument_list[t].as_str(), nlen);
            return Some(v);
        }
        t = t + 1;
    }
    proof {
        lemma_first_named_value_is(dv, name@, n as int);
    }
    None
}

/// Position of the first `=` in `s`, or the length of `s` if there is none.
pub open spec fn eq_pos(s: Seq<char>) -> int
    decreases s.len(),
{
    if s.len() == 0 || s[0] == '=' {
        0
    } else {
        1 + eq_pos(s.drop_first())
    }
}

pub proof fn lemma_eq_pos_is(s: Seq<char>, j: int)
    requires
        0 <= j <= s.len(),
        forall|k: int| 0 <= k < j ==> s[k] != '=',
        j < s.len() ==> s[j] == '=',
    ensures
        eq_pos(s) == j,
    decreases s.len(),
{
    if j > 0 {
        let rest = s.drop_first();
        assert(forall|k: int| 0 <= k < rest.len() ==> rest[k] == s[k + 1]);
        lemma_eq_pos_is(rest, j - 1);
    }
}

/// Whether a named token supplies this parameter, by the validation rules:
/// a `Named` parameter wants its exact name after the `--`; a `NamedValue`
/// parameter wants its name before the first `=` of the token, and there
/// must be one.
pub open spec fn param_accepts_flag(p: Parameter, t: Seq<char>) -> bool
    recommends
        is_named_token(t),
{
    match p {
        Parameter::Named { parameter_name, .. } => t.skip(2) == parameter_name@,
        Parameter::NamedValue { parameter_name, .. } => ({
            let tail = t.skip(2);
            &&& eq_pos(tail) < tail.len()
            &&& tail.take(eq_pos(tail)) == parameter_name@
        }),
        _ => false,
    }
}

/// Whether some declared parameter accepts the named token.
pub open spec fn accepts_flag(params: Seq<Parameter>, t: Seq<char>) -> bool {
    exists|i: int| 0 <= i < params.len() && param_accepts_flag(params[i], t)
}

/// Decides `accepts_flag` on a concrete named token.
fn flag_is_known(parameters: &Vec<Parameter>, t: &str) -> (r: bool)
    requires
        is_named_token(t@),
    ensures
        r == accepts_flag(parameters@, t@),
{
    let tlen = t.unicode_len();
    let ghost tail = t@.skip(2);
    let mut e: usize = 2;
    while e < tlen
        invariant
            2 <= e <= tlen,
            tlen == t@.len(),
            forall|k: int| 2 <= k < e ==> t@[k] != '=',
        ensures
            2 <= e <= tlen,
            tlen == t@.len(),
            forall|k: int| 2 <= k < e ==> t@[k] != '=',
            e == tlen || t@[e as int] == '=',
        decreases tlen - e,
    {
        if t.get_char(e) == '=' {
            break ;
        }
        e = e + 1;
    }
    proof {
        assert(forall|k: int| 0 <= k < tail.len() ==> tail[k] == t@[k + 2]);
        lemma_eq_pos_is(tail, e - 2);
    }
    let has_eq = e < tlen;
    let mut idx: usize = 0;
    let n = parameters.len();
    while idx < n
        invariant
            idx <= n,
            n == parameters@.len(),
            2 <= e <= tlen,
            tlen == t@.len(),
            tail == t@.skip(2),
            eq_pos(tail) == e - 2,
            has_eq == (e < tlen),
            forall|i: int| 0 <= i < idx ==> !param_accepts_flag(parameters@[i], t@),
        decreases n - idx,
    {
        match &parameters[idx] {
            Parameter::Named { parameter_name, .. } => {
                let whole = t.substring_char(2, tlen);
                proof {
                    assert(whole@ =~= tail);
                }
                if str_eq(whole, parameter_name.as_str()) {
                    assert(param_accepts_flag(parameters@[idx as int], t@));
                    return true;
                }
            },
            Parameter::NamedValue { parameter_name, .. } => {
                if has_eq {
                    let before = t.substring_char(2, e);
                    proof {
                        assert(before@ =~= tail.take(eq_pos(tail)));
                    }
                    if str_eq(before, parameter_name.as_str()) {
                        assert(param_accepts_flag(parameters@[idx as int], t@));
                        return true;
                    }
                }
            },
            Parameter::Mandatory { .. } => {},
            Parameter::Optional { .. } => {},
        }
        idx = idx + 1;
    }
    false
}

/// The first supplied named token that no declared parameter accepts.
pub open spec fn first_bad_flag(params: Seq<Parameter>, args: Seq<Seq<char>>) -> Option<int>
    decreases args.len(),
{
    if args.len() == 0 {
        None
    } else if is_named_token(args.first()) && !accepts_flag(params, args.first()) {
        Some(0)
    } else {
        match first_bad_flag(params, args.drop_first()) {
            Some(j) => Some(j + 1),
            None => None,
        }
    }
}

pub proof fn lemma_first_bad_flag_is(params: Seq<Parameter>, args: Seq<Seq<char>>, j: int)
    requires
        0 <= j <= args.len(),
        forall|k: int|
            0 <= k < j ==> !(is_named_token(args[k]) && !accepts_flag(params, args[k])),
        j < args.len() ==> is_named_token(args[j]) && !accepts_flag(params, args[j]),
    ensures
        j < args.len() ==> first_bad_flag(params, args) == Some(j),
        j == args.len() ==> first_bad_flag(params, args) is None,
    decreases args.len(),
{
    if args.len() > 0 && j > 0 {
        let rest = args.drop_first();
        assert(forall|k: int| 0 <= k < rest.len() ==> rest[k] == args[k + 1]);
        lemma_first_bad_flag_is(params, rest, j - 1);
    }
}

/// A reported unknown token lies within the supplied list, begins with
/// `--`, and matches no declared flag.
pub proof fn lemma_first_bad_flag_props(params: Seq<Parameter>, args: Seq<Seq<char>>)
    ensures
        match first_bad_flag(params, args) {
            Some(j) => 0 <= j < args.len() && is_named_token(args[j]) && !accepts_flag(
                params,
                args[j],
            ),
            None => true,
        },
    decreases args.len(),
{
    if args.len() > 0 && !(is_named_token(args.first()) && !accepts_flag(params, args.first())) {
        let rest = args.drop_first();
        lemma_first_bad_flag_props(params, rest);
        match first_bad_flag(params, args) {
            Some(j) => {
                assert(rest[j - 1] == args[j]);
            },
            None => {},
        }
    }
}

/// The answer that holding a supplied token list against a schema gives.
#[derive(Debug, Clone, PartialEq, Eq, Structural)]
pub enum ArgCheck {
    /// The token at this index begins with `--` and matches no declared
    /// `Named` or `NamedValue` parameter.
    UnknownFlag { token_index: usize },
    /// Fewer positional tokens than mandatory parameters.
    Insufficient,
    /// More positional tokens than positional (mandatory plus optional)
    /// parameters.
    TooMany,
    /// The supplied tokens fit the schema.
    Accepted,
}

/// The validation answer: the first unknown named token wins; otherwise
/// the positional count must reach the mandatory count and not exceed the
/// positional capacity.
pub open spec fn spec_validate(params: Seq<Parameter>, args: Seq<Seq<char>>) -> ArgCheck {
    match first_bad_flag(params, args) {
        Some(j) => ArgCheck::UnknownFlag { token_index: j as usize },
        None => {
            let p = positionals(args).len();
            if p < mandatory_count(params) {
                ArgCheck::Insufficient
            } else if p > mandatory_count(params) + optional_count(params) {
                ArgCheck::TooMany
            } else {
                ArgCheck::Accepted
            }
        },
    }
}

/// Holds the supplied tokens against the declared schema: every `--` token
/// must be understood, and the positional count must fit between the
/// mandatory count and the positional capacity.
pub fn validate_arguments(parameters: &Vec<Parameter>, args: &Vec<String>) -> (r: ArgCheck)
    ensures
        r == spec_validate(parameters@, args.deep_view()),
{
    let ghost dv = args.deep_view();
    let n = args.len();
    let mut t: usize = 0;
    while t < n
        invariant
            t <= n,
            n == args@.len(),
            dv == args.deep_view(),
            forall|j: int|
                0 <= j < t ==> !(is_named_token(dv[j]) && !accepts_flag(parameters@, dv[j])),
        decreases n - t,
    {
        proof {
            assert(dv[t as int] == args@[t as int]@);
        }
        let tok = &args[t];
        if token_is_named(tok.as_str()) {
            if !flag_is_known(parameters, tok.as_str()) {
                proof {
                    lemma_first_bad_flag_is(parameters@, dv, t as int);
                }
                return ArgCheck::UnknownFlag { token_index: t };
            }
        }
        t = t + 1;
    }
    proof {
        lemma_first_bad_flag_is(parameters@, dv, n as int);
        assert(dv.take(0) =~= Seq::<Seq<char>>::empty());
    }
    let mut seen: usize = 0;
    t = 0;
    while t < n
        invariant
            t <= n,
            n == args@.len(),
            dv == args.deep_view(),
            seen == positionals(dv.take(t as int)).len(),
            seen <= t,
        decreases n - t,
    {
        proof {
            lemma_positionals_take_step(dv, t as int);
            assert(dv[t as int] == args@[t as int]@);
        }
        if !token_is_named(args[t].as_str()) {
            seen = seen + 1;
        }
        t = t + 1;
    }
    let ghost pseq = parameters@;
    proof {
        assert(dv.take(n as int) =~= dv);
        assert(pseq.take(0) =~= Seq::<Parameter>::empty());
    }
    let m = parameters.len();
    let mut idx: usize = 0;
    let mut mcount: usize = 0;
    let mut ocount: usize = 0;
    while idx < m
        invariant
            idx <= m,
            m == pseq.len(),
            pseq == parameters@,
            mcount == mandatory_count(pseq.take(idx as int)),
            ocount == optional_count(pseq.take(idx as int)),
        decreases m - idx,
    {
        proof {
            assert(pseq.take(idx as int + 1).drop_last() =~= pseq.take(idx as int));
            assert(pseq.take(idx as int + 1).last() == pseq[idx as int]);
            lemma_counts_bounds(pseq.take(idx as int));
        }
        match &parameters[idx] {
            Parameter::Mandatory { .. } => {
                mcount = mcount + 1;
            },
            Parameter::Optional { .. } => {
                ocount = ocount + 1;
            },
            Parameter::Named { .. } => {},
            Parameter::NamedValue { .. } => {},
        }
        idx = idx + 1;
    }
    proof {
        assert(pseq.take(m as int) =~= pseq);
        lemma_counts_bounds(pseq);
    }
    if seen < mcount {
        ArgCheck::Insufficient
    } else if seen > mcount + ocount {
        ArgCheck::TooMany
    } else {
        ArgCheck::Accepted
    }
}

/// For a schema with `m` mandatory and `o` optional positional parameters
/// and a token list with no unknown named token: supplying fewer than `m`
/// positional tokens is refused as insufficient, more than `m + o` as too
/// many, and every count in between is accepted.
pub proof fn lemma_positional_arity(params: Seq<Parameter>, args: Seq<Seq<char>>)
    requires
        first_bad_flag(params, args) is None,
    ensures
        positionals(args).len() < mandatory_count(params) <==> spec_validate(params, args)
            == ArgCheck::Insufficient,
        positionals(args).len() > mandatory_count(params) + optional_count(params)
            <==> spec_validate(params, args) == ArgCheck::TooMany,
        mandatory_count(params) <= positionals(args).len() <= mandatory_count(params)
            + optional_count(params) <==> spec_validate(params, args) == ArgCheck::Accepted,
{
    lemma_counts_bounds(params);
}

/// Every positional token is one of the supplied tokens, and none of them
/// begins with `--`.
pub proof fn lemma_positionals_are_supplied(tokens: Seq<Seq<char>>)
    ensures
        forall|x: Seq<char>|
            #[trigger] positionals(tokens).contains(x) ==> tokens.contains(x) && !is_named_token(
                x,
            ),
    decreases tokens.len(),
{
    if tokens.len() > 0 {
        let rest = tokens.drop_last();
        lemma_positionals_are_supplied(rest);
        assert forall|x: Seq<char>| #[trigger]
            positionals(tokens).contains(x) implies tokens.contains(x) && !is_named_token(x) by {
            if positionals(rest).contains(x) {
                let j = choose|j: int| 0 <= j < rest.len() && rest[j] == x;
                assert(tokens[j] == x);
            } else {
                assert(!is_named_token(tokens.last()) && x == tokens.last());
                assert(tokens[tokens.len() - 1] == x);
            }
        }
    }
}

/// The positional counting rule, round trip: whenever at least `k`
/// positional tokens are supplied, the `k`-th positional lookup succeeds,
/// and what it returns is a supplied token that is not a named token.
pub proof fn lemma_nth_positional_in_supply(tokens: Seq<Seq<char>>, k: int)
    requires
        1 <= k <= positionals(tokens).len(),
    ensures
        nth_positional(tokens, k) matches Some(v) && tokens.contains(v) && !is_named_token(v),
{
    lemma_positionals_are_supplied(tokens);
    assert(positionals(tokens).contains(positionals(tokens)[k - 1]));
}

/// For a declared `Mandatory` parameter, a token list that validation
/// accepts always supplies its value: the lookup never comes back absent.
pub proof fn lemma_mandatory_found_when_accepted(
    params: Seq<Parameter>,
    tokens: Seq<Seq<char>>,
    name: Seq<char>,
)
    requires
        find_param(params, name) matches Some(i) && params[i] is Mandatory,
        spec_validate(params, tokens) == ArgCheck::Accepted,
    ensures
        spec_find_argument(params, tokens, name) matches Ok(v) && v is Some,
{
    let i = find_param(params, name)->0;
    lemma_find_param_props(params, name);
    let k = mandatory_ordinal(params, i);
    assert(params.take(i + 1).last() == params[i]);
    assert(params.take(i + 1).drop_last() =~= params.take(i));
    lemma_counts_bounds(params.take(i));
    lemma_counts_take_le(params, i + 1);
    assert(1 <= k <= mandatory_count(params));
    assert(positionals(tokens).len() >= mandatory_count(params));
}

/// A bare `--name` token, with no `=`, never supplies a `NamedValue`
/// parameter: it is one character too short to carry even an empty value.
pub proof fn lemma_bare_flag_no_value(t: Seq<char>, name: Seq<char>)
    requires
        t == seq!['-', '-'] + name,
    ensures
        !named_value_matches(t, name),
{
}

/// A `--name=value` token supplies the `NamedValue` parameter `name`, and
/// the value it carries is exactly `value` - the empty sequence when the
/// token ends right after the `=`.
pub proof fn lemma_value_token_payload(name: Seq<char>, value: Seq<char>)
    ensures
        named_value_matches(seq!['-', '-'] + name + seq!['='] + value, name),
        named_value_payload(seq!['-', '-'] + name + seq!['='] + value, name) == value,
{
    let t = seq!['-', '-'] + name + seq!['='] + value;
    assert(t.len() == name.len() + 3 + value.len());
    assert(t[0] == '-');
    assert(t[1] == '-');
    assert(t.subrange(2, name.len() as int + 2) =~= name);
    assert(t[name.len() as int + 2] == '=');
    assert(t.skip(name.len() as int + 3) =~= value);
}

/// When a name resolves to a `NamedValue` parameter and no supplied token
/// has the `--name=...` shape, the lookup reports the argument absent.
pub proof fn lemma_named_value_absent(
    params: Seq<Parameter>,
    tokens: Seq<Seq<char>>,
    name: Seq<char>,
)
    requires
        find_param(params, name) matches Some(i) && params[i] is NamedValue,
        forall|j: int| 0 <= j < tokens.len() ==> !named_value_matches(tokens[j], name),
    ensures
        spec_find_argument(params, tokens, name) == Ok::<Option<Seq<char>>, Error>(None),
{
    lemma_find_param_props(params, name);
    lemma_first_named_value_is(tokens, name, tokens.len() as int);
}

/// Looks for the named parameter in the parameter list of the item, then
/// finds the correct argument.
///
/// * Returns `Ok(None)` if `name_to_find` gives an optional or named
///   parameter and that argument was not supplied.
/// * Returns `Ok(Some(arg))` if the argument corresponding to `name_to_find`
///   was supplied. `arg` is the empty string if the parameter is
///   `Parameter::Named` (and hence doesn't take a value).
/// * Returns `Err(..)` if `name_to_find` is not declared on the item, or the
///   item is not a `Callback` item.
pub fn argument_finder<H>(
    item: &Item<H>,
    argument_list: &Vec<String>,
    name_to_find: &str,
) -> (r: Result<Option<String>, Error>)
    ensures
        match item.item_type {
            ItemType::Callback { parameters, .. } => finder_result_matches(
                r,
                spec_find_argument(parameters@, argument_list.deep_view(), name_to_find@),
            ),
            ItemType::Menu(_) => r == Err::<Option<String>, Error>(Error::NotACallbackItem),
        },
{
    let parameters = match &item.item_type {
        ItemType::Callback { parameters, .. } => parameters,
        ItemType::Menu(_) => {
            return Err(Error::NotACallbackItem);
        },
    };
    let ghost pseq = parameters@;
    let n = parameters.len();
    let mut idx: usize = 0;
    let mut mcount: usize = 0;
    let mut ocount: usize = 0;
    let mut has_found = false;
    let mut found_idx: usize = 0;
    let mut found_ord: usize = 0;
    proof {
        assert(pseq.take(0) =~= Seq::<Parameter>::empty());
    }
    while idx < n
        invariant
            idx <= n,
            n == pseq.len(),
            pseq == parameters@,
            mcount == mandatory_count(pseq.take(idx as int)),
            ocount == optional_count(pseq.take(idx as int)),
            match find_param(pseq.take(idx as int), name_to_find@) {
                Some(i) => has_found && found_idx == i && (pseq[i] is Mandatory ==> found_ord
                    == mandatory_ordinal(pseq, i)) && (pseq[i] is Optional ==> found_ord
                    == optional_ordinal(pseq, i)),
                None => !has_found,
            },
        decreases n - idx,
    {
        proof {
            assert(pseq.take(idx as int + 1).drop_last() =~= pseq.take(idx as int));
            assert(pseq.take(idx as int + 1).last() == pseq[idx as int]);
            lemma_counts_bounds(pseq.take(idx as int));
        }
        match &parameters[idx] {
            Parameter::Mandatory { parameter_name, .. } => {
                mcount = mcount + 1;
                if str_eq(parameter_name.as_str(), name_to_find) {
                    has_found = true;
                    found_idx = idx;
                    found_ord = mcount;
                }
            },
            Parameter::Optional { parameter_name, .. } => {
                ocount = ocount + 1;
                if str_eq(parameter_name.as_str(), name_to_find) {
                    has_found = true;
                    found_idx = idx;
                    found_ord = ocount;
                }
            },
            Parameter::Named { parameter_name, .. } => {
                if str_eq(parameter_name.as_str(), name_to_find) {
                    has_found = true;
                    found_idx = idx;
                    found_ord = 0;
                }
            },
            Parameter::NamedValue { parameter_name, .. } => {
                if str_eq(parameter_name.as_str(), name_to_find) {
                    has_found = true;
                    found_idx = idx;
                    found_ord = 0;
                }
            },
        }
        idx = idx + 1;
    }
    proof {
        assert(pseq.take(n as int) =~= pseq);
        lemma_find_param_props(pseq, name_to_find@);
    }
    if !has_found {
        return Err(Error::NotFound);
    }
    match &parameters[found_idx] {
        Parameter::Mandatory { .. } => {
            proof {
                assert(pseq.take(found_idx as int + 1).last() == pseq[found_idx as int]);
                assert(pseq.take(found_idx as int + 1).drop_last() =~= pseq.take(found_idx as int));
                lemma_counts_bounds(pseq.take(found_idx as int));
            }
            Ok(find_positional(argument_list, found_ord))
        },
        Parameter::Optional { .. } => {
            proof {
                assert(pseq.take(found_idx as int + 1).last() == pseq[found_idx as int]);
                assert(pseq.take(found_idx as int + 1).drop_last() =~= pseq.take(found_idx as int));
                lemma_counts_bounds(pseq.take(found_idx as int));
                lemma_counts_take_le(pseq, found_idx as int + 1);
                lemma_counts_bounds(pseq);
            }
            let target = mcount + found_ord;
            Ok(find_positional(argument_list, target))
        },
        Parameter::Named { .. } => {
            if find_flag(argument_list, name_to_find) {
                Ok(Some(String::new()))
            } else {
                Ok(None)
            }
        },
        Parameter::NamedValue { .. } => { Ok(find_named_value(argument_list, name_to_find)) },
    }
}

} // verus!

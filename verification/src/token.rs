//! Character classification, string comparison and whitespace tokenization.

use vstd::prelude::*;

verus! {

/// A whitespace character, by the Unicode `White_Space` property (the set
/// that `char::is_whitespace` recognizes).
pub open spec fn is_ws(c: char) -> bool {
    let u = c as u32;
    ||| u == 0x20
    ||| (0x09 <= u && u <= 0x0d)
    ||| u == 0x85
    ||| u == 0xa0
    ||| u == 0x1680
    ||| (0x2000 <= u && u <= 0x200a)
    ||| u == 0x2028
    ||| u == 0x2029
    ||| u == 0x202f
    ||| u == 0x205f
    ||| u == 0x3000
}

/// Decides `is_ws` on a concrete character.
pub fn is_whitespace_char(c: char) -> (r: bool)
    ensures
        r == is_ws(c),
{
    let u = c as u32;
    u == 0x20 || (0x09 <= u && u <= 0x0d) || u == 0x85 || u == 0xa0 || u == 0x1680 || (0x2000 <= u
        && u <= 0x200a) || u == 0x2028 || u == 0x2029 || u == 0x202f || u == 0x205f || u == 0x3000
}

/// Length of the whitespace-free run at the head of `s`.
pub open spec fn token_end(s: Seq<char>) -> int
    decreases s.len(),
{
    if s.len() == 0 || is_ws(s[0]) {
        0
    } else {
        1 + token_end(s.drop_first())
    }
}

pub proof fn lemma_token_end_bounds(s: Seq<char>)
    ensures
        0 <= token_end(s) <= s.len(),
        s.len() > 0 && !is_ws(s[0]) ==> 1 <= token_end(s),
        forall|k: int| 0 <= k < token_end(s) ==> !is_ws(s[k]),
        token_end(s) < s.len() ==> is_ws(s[token_end(s)]),
    decreases s.len(),
{
    if s.len() > 0 && !is_ws(s[0]) {
        lemma_token_end_bounds(s.drop_first());
        assert forall|k: int| 0 <= k < token_end(s) implies !is_ws(s[k]) by {
            if k > 0 {
                assert(s.drop_first()[k - 1] == s[k]);
            }
        }
    }
}

/// `token_end(s)` is the unique boundary: everything before it is
/// whitespace-free and it is the end of the sequence or a whitespace.
pub proof fn lemma_token_end_is(s: Seq<char>, j: int)
    requires
        0 <= j <= s.len(),
        forall|k: int| 0 <= k < j ==> !is_ws(s[k]),
        j == s.len() || is_ws(s[j]),
    ensures
        token_end(s) == j,
    decreases s.len(),
{
    if j == 0 {
    } else {
        assert(!is_ws(s[0]));
        assert(forall|k: int| 0 <= k < s.drop_first().len() ==> s.drop_first()[k] == s[k + 1]);
        lemma_token_end_is(s.drop_first(), j - 1);
    }
}

/// The whitespace-separated tokens of `s`, in order: what
/// `str::split_whitespace` yields.
pub open spec fn tokenize(s: Seq<char>) -> Seq<Seq<char>>
    decreases s.len(),
    via tokenize_decreases
{
    if s.len() == 0 {
        Seq::empty()
    } else if is_ws(s[0]) {
        tokenize(s.drop_first())
    } else {
        seq![s.take(token_end(s))] + tokenize(s.skip(token_end(s)))
    }
}

#[via_fn]
proof fn tokenize_decreases(s: Seq<char>) {
    lemma_token_end_bounds(s);
}

/// Splits a line into its whitespace-separated tokens.
pub fn tokenize_line(line: &str) -> (r: Vec<String>)
    ensures
        r.deep_view() == tokenize(line@),
{
    let n = line.unicode_len();
    let mut toks: Vec<String> = Vec::new();
    let mut i: usize = 0;
    proof {
        assert(line@.skip(0) =~= line@);
        assert(toks.deep_view() + tokenize(line@) =~= tokenize(line@));
    }
    while i < n
        invariant
            i <= n,
            n == line@.len(),
            tokenize(line@) =~= toks.deep_view() + tokenize(line@.skip(i as int)),
        decreases n - i,
    {
        let c = line.get_char(i);
        if is_whitespace_char(c) {
            proof {
                assert(line@.skip(i as int).drop_first() =~= line@.skip(i as int + 1));
            }
            i = i + 1;
        } else {
            let start = i;
            let mut j = i + 1;
            while j < n
                invariant
                    i < j <= n,
                    n == line@.len(),
                    forall|k: int| i <= k < j ==> !is_ws(line@[k]),
                ensures
                    i < j <= n,
                    forall|k: int| i <= k < j ==> !is_ws(line@[k]),
                    j == n || is_ws(line@[j as int]),
                decreases n - j,
            {
                if is_whitespace_char(line.get_char(j)) {
                    break ;
                }
                j = j + 1;
            }
            let tok = line.substring_char(start, j);
            let owned: String = tok.to_owned();
            let ghost old_dv = toks.deep_view();
            toks.push(owned);
            proof {
                let rest = line@.skip(start as int);
                assert(forall|k: int|
                    0 <= k < j - start ==> rest[k] == line@[k + start] && !is_ws(rest[k]));
                lemma_token_end_is(rest, j - start);
                assert(rest.take(j - start) =~= line@.subrange(start as int, j as int));
                assert(rest.skip(j - start) =~= line@.skip(j as int));
                assert(toks.deep_view() =~= old_dv.push(tok@));
                assert(toks.deep_view() + tokenize(line@.skip(j as int)) =~= old_dv + (seq![
                    line@.subrange(start as int, j as int),
                ] + tokenize(line@.skip(j as int))));
            }
            i = j;
        }
    }
    proof {
        assert(line@.skip(n as int) =~= Seq::<char>::empty());
        assert(toks.deep_view() + tokenize(line@.skip(n as int)) =~= toks.deep_view());
    }
    toks
}

/// String equality, decided character by character.
pub fn str_eq(a: &str, b: &str) -> (r: bool)
    ensures
        r == (a@ == b@),
{
    let alen = a.unicode_len();
    let blen = b.unicode_len();
    if alen != blen {
        return false;
    }
    let mut i: usize = 0;
    while i < alen
        invariant
            i <= alen,
            alen == a@.len(),
            alen == b@.len(),
            forall|k: int| 0 <= k < i ==> a@[k] == b@[k],
        decreases alen - i,
    {
        if a.get_char(i) != b.get_char(i) {
            return false;
        }
        i = i + 1;
    }
    proof {
        assert(a@ =~= b@);
    }
    true
}

} // verus!

//! Synthetic operation ids: how a candidate is made from an endpoint key and
//! an attempt number.

use vstd::prelude::*;
use vstd::string::*;
use crate::key::PathMethodView;
use crate::text::{
    chars_of, decimal, is_alphanumeric, is_ascii_alphanumeric, is_digit, lemma_decimal_value,
    lower, lowercase_of, push_decimal, string_views, to_ascii_lower,
};

verus! {

/// `s` with every character that is no ASCII letter or digit replaced by an
/// underscore.
pub open spec fn underscored(s: Seq<char>) -> Seq<char> {
    s.map_values(
        |c: char|
            if is_alphanumeric(c) {
                c
            } else {
                '_'
            },
    )
}

/// `s` without its leading underscores.
pub open spec fn trim_start(s: Seq<char>) -> Seq<char>
    decreases s.len(),
{
    if s.len() > 0 && s.first() == '_' {
        trim_start(s.drop_first())
    } else {
        s
    }
}

/// `s` without its trailing underscores.
pub open spec fn trim_end(s: Seq<char>) -> Seq<char>
    decreases s.len(),
{
    if s.len() > 0 && s.last() == '_' {
        trim_end(s.drop_last())
    } else {
        s
    }
}

/// `s` with every ASCII capital letter in lower case.
pub open spec fn lowered(s: Seq<char>) -> Seq<char> {
    s.map_values(|c: char| lower(c))
}

/// The base token of a path: letters and digits kept, everything else turned
/// into underscores, the underscores at both ends stripped, all in lower case,
/// and an `n` in front where the token would start with a digit.
pub open spec fn base_token_of(path: Seq<char>) -> Seq<char> {
    let token = lowered(trim_end(trim_start(underscored(path))));
    if token.len() > 0 && is_digit(token.first()) {
        seq!['n'] + token
    } else {
        token
    }
}

/// What stands between the base token and the method: nothing for the first
/// attempt, the attempt's decimal numeral for a later one.
pub open spec fn attempt_mark(attempt: nat) -> Seq<char> {
    if attempt == 0 {
        Seq::empty()
    } else {
        decimal(attempt)
    }
}

/// The text that introduces a parameter name in an operation id.
pub open spec fn by_word() -> Seq<char> {
    seq!['_', 'b', 'y', '_']
}

/// One `_by_<name>` for each name, in order.
pub open spec fn by_clauses(names: Seq<Seq<char>>) -> Seq<char>
    decreases names.len(),
{
    if names.len() == 0 {
        Seq::empty()
    } else {
        by_clauses(names.drop_last()) + by_word() + names.last()
    }
}

/// The operation id made of a base token, an attempt number, a method and
/// parameter names, the last two already in lower case.
pub open spec fn composed(
    base: Seq<char>,
    attempt: nat,
    method: Seq<char>,
    names: Seq<Seq<char>>,
) -> Seq<char> {
    base + attempt_mark(attempt) + seq!['_'] + method + by_clauses(names)
}

/// The candidate for the synthetic operation id of the endpoint `key` at the
/// given attempt.
pub open spec fn candidate_id(key: PathMethodView, attempt: nat) -> Seq<char> {
    composed(
        base_token_of(key.path),
        attempt,
        lowercase_of(key.method),
        match key.params {
            Some(names) => names.map_values(|name: Seq<char>| lowercase_of(name)),
            None => Seq::empty(),
        },
    )
}

/// Two attempts for one endpoint never give the same candidate.
pub proof fn lemma_attempts_differ(key: PathMethodView, a: nat, b: nat)
    requires
        a != b,
    ensures
        candidate_id(key, a) != candidate_id(key, b),
{
    let base = base_token_of(key.path);
    let tail = candidate_id(key, 0).skip(base.len() as int);
    let x = attempt_mark(a);
    let y = attempt_mark(b);
    assert(candidate_id(key, a) =~= base + x + tail);
    assert(candidate_id(key, b) =~= base + y + tail);
    if candidate_id(key, a) == candidate_id(key, b) {
        assert(x =~= y) by {
            assert(x.len() == y.len());
            assert forall|i: int| 0 <= i < x.len() implies x[i] == y[i] by {
                assert((base + x + tail)[base.len() + i] == x[i]);
                assert((base + y + tail)[base.len() + i] == y[i]);
            }
        }
        lemma_decimal_value(a);
        lemma_decimal_value(b);
    }
}

/// Stripping the leading underscores leaves what follows the first character
/// that is none.
proof fn lemma_trim_start(s: Seq<char>, start: int)
    requires
        0 <= start <= s.len(),
        forall|k: int| 0 <= k < start ==> s[k] == '_',
        start < s.len() ==> s[start] != '_',
    ensures
        trim_start(s) == s.skip(start),
    decreases start,
{
    if start > 0 {
        lemma_trim_start(s.drop_first(), start - 1);
    }
}

/// Stripping the trailing underscores leaves what precedes the last character
/// that is none.
proof fn lemma_trim_end(s: Seq<char>, end: int)
    requires
        0 <= end <= s.len(),
        forall|k: int| end <= k < s.len() ==> s[k] == '_',
        end > 0 ==> s[end - 1] != '_',
    ensures
        trim_end(s) == s.take(end),
    decreases s.len() - end,
{
    if end < s.len() {
        lemma_trim_end(s.drop_last(), end);
    }
}

/// The base token of a path.
pub fn base_token(path: &str) -> (r: String)
    ensures
        r@ == base_token_of(path@),
{
    let chars = chars_of(path);
    let n = chars.len();
    let ghost marked = underscored(chars@);
    let mut start: usize = 0;
    while start < n && !is_ascii_alphanumeric(chars[start])
        invariant
            start <= n,
            n == chars.len(),
            marked == underscored(chars@),
            forall|k: int| 0 <= k < start ==> marked[k] == '_',
        decreases n - start,
    {
        start = start + 1;
    }
    let mut end: usize = n;
    while end > start && !is_ascii_alphanumeric(chars[end - 1])
        invariant
            start <= end <= n,
            n == chars.len(),
            marked == underscored(chars@),
            forall|k: int| end <= k < n ==> marked[k] == '_',
        decreases end,
    {
        end = end - 1;
    }
    proof {
        lemma_trim_start(marked, start as int);
        lemma_trim_end(marked.skip(start as int), end - start);
        assert(trim_end(trim_start(marked)) =~= marked.subrange(start as int, end as int));
    }
    let mut r = String::new();
    if start < end && chars[start] >= '0' && chars[start] <= '9' {
        r.push('n');
    }
    let ghost front = r@;
    let mut i: usize = start;
    while i < end
        invariant
            start <= i <= end <= n,
            n == chars.len(),
            marked == underscored(chars@),
            r@ == front + lowered(marked.subrange(start as int, i as int)),
        decreases end - i,
    {
        let c = chars[i];
        if is_ascii_alphanumeric(c) {
            r.push(to_ascii_lower(c));
        } else {
            r.push('_');
        }
        i = i + 1;
    }
    r
}

/// Puts an operation id together from a base token, an attempt number, a
/// method and parameter names. The method and the names are taken as they
/// are: the caller has them in lower case.
pub fn compose_operation_id(base: &str, attempt: u64, method: &str, names: &Vec<String>) -> (r:
    String)
    ensures
        r@ == composed(base@, attempt as nat, method@, string_views(names@)),
        r@.len() > 0,
{
    let mut r = base.to_owned();
    if attempt != 0 {
        push_decimal(&mut r, attempt);
    }
    r.push('_');
    r.append(method);
    let ghost head = r@;
    let mut i: usize = 0;
    while i < names.len()
        invariant
            i <= names.len(),
            r@ == head + by_clauses(string_views(names@).take(i as int)),
        decreases names.len() - i,
    {
        r.push('_');
        r.push('b');
        r.push('y');
        r.push('_');
        r.append(names[i].as_str());
        i = i + 1;
        proof {
            let done = string_views(names@).take(i as int);
            assert(done.drop_last() =~= string_views(names@).take(i - 1));
        }
    }
    assert(string_views(names@).take(i as int) =~= string_views(names@));
    r
}

} // verus!

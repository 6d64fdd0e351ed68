//! The path normalizer: parameter regions of a path template.
//!
//! A path template marks a parameter as `{name}`. The normalizer reads the
//! names off a template and replaces every region by the same placeholder, so
//! that templates which differ in their parameter names alone have the same
//! normalized path.

use vstd::prelude::*;
use vstd::string::*;
use crate::text::str_views;

verus! {

/// The two characters that stand for a parameter region in a normalized path.
pub open spec fn placeholder() -> Seq<char> {
    seq!['{', '}']
}

/// The names of the parameter regions of `s`, left to right.
///
/// A region opens at the first `{` outside a region and closes at the first
/// `}` after it. A region without a name gives no entry, and an opening brace
/// that is never closed opens no region.
pub open spec fn path_params(s: Seq<char>) -> Seq<Seq<char>>
    decreases s.len(),
{
    match s.index_of_first('{') {
        None => Seq::empty(),
        Some(open) => match s.skip(open + 1).index_of_first('}') {
            None => Seq::empty(),
            Some(len) => {
                proof {
                    s.index_of_first_ensures('{');
                    s.skip(open + 1).index_of_first_ensures('}');
                }
                let rest = path_params(s.skip(open + len + 2));
                if len > 0 {
                    seq![s.subrange(open + 1, open + 1 + len)] + rest
                } else {
                    rest
                }
            },
        },
    }
}

/// The path `s` with each parameter region replaced by the placeholder.
///
/// The text outside the regions is kept as it is. After an opening brace that
/// is never closed, the placeholder is followed by all the text since the
/// last region, the brace included.
pub open spec fn normalized_path(s: Seq<char>) -> Seq<char>
    decreases s.len(),
{
    match s.index_of_first('{') {
        None => s,
        Some(open) => match s.skip(open + 1).index_of_first('}') {
            None => s.take(open) + placeholder() + s,
            Some(len) => {
                proof {
                    s.index_of_first_ensures('{');
                    s.skip(open + 1).index_of_first_ensures('}');
                }
                s.take(open) + placeholder() + normalized_path(s.skip(open + len + 2))
            },
        },
    }
}

/// What the normalizer makes of the path `s`: nothing where it names no
/// parameter, else the names and the normalized path.
pub open spec fn extracted(s: Seq<char>) -> Option<(Seq<Seq<char>>, Seq<char>)> {
    if path_params(s).len() == 0 {
        None
    } else {
        Some((path_params(s), normalized_path(s)))
    }
}

/// The path template made of the given texts with one parameter region
/// between each text and the next: `texts[0] {names[0]} texts[1] ...`.
pub open spec fn template(texts: Seq<Seq<char>>, names: Seq<Seq<char>>) -> Seq<char>
    recommends
        texts.len() == names.len() + 1,
    decreases names.len(),
{
    if names.len() == 0 {
        texts.first()
    } else {
        texts.first() + seq!['{'] + names.first() + seq!['}'] + template(
            texts.drop_first(),
            names.drop_first(),
        )
    }
}

/// The given texts with the placeholder between each text and the next.
pub open spec fn joined(texts: Seq<Seq<char>>) -> Seq<char>
    recommends
        texts.len() > 0,
    decreases texts.len(),
{
    if texts.len() <= 1 {
        texts.first()
    } else {
        texts.first() + placeholder() + joined(texts.drop_first())
    }
}

/// The names that are not empty, in order.
pub open spec fn named(names: Seq<Seq<char>>) -> Seq<Seq<char>> {
    names.filter(|name: Seq<char>| name.len() > 0)
}

/// `k` is the first position of `c` in `t`.
proof fn lemma_first_at(t: Seq<char>, c: char, k: int)
    requires
        0 <= k < t.len(),
        t[k] == c,
        forall|j: int| 0 <= j < k ==> t[j] != c,
    ensures
        t.index_of_first(c) == Some(k),
{
    t.index_of_first_ensures(c);
}

/// `c` does not occur in `t`.
proof fn lemma_first_none(t: Seq<char>, c: char)
    requires
        forall|j: int| 0 <= j < t.len() ==> t[j] != c,
    ensures
        t.index_of_first(c) is None,
{
    t.index_of_first_ensures(c);
}

/// The normalizer finds nothing in a path without an opening brace.
pub proof fn lemma_no_brace(s: Seq<char>)
    requires
        !s.contains('{'),
    ensures
        extracted(s) is None,
        normalized_path(s) == s,
{
    lemma_first_none(s, '{');
}

/// Whether `texts` and `names` are the parts of a template: one text more
/// than names, no opening brace in a text, no closing brace in a name.
pub open spec fn template_parts(texts: Seq<Seq<char>>, names: Seq<Seq<char>>) -> bool {
    &&& texts.len() == names.len() + 1
    &&& forall|i: int| 0 <= i < texts.len() ==> !(#[trigger] texts[i]).contains('{')
    &&& forall|i: int| 0 <= i < names.len() ==> !(#[trigger] names[i]).contains('}')
}

/// What the normalizer makes of a region in front of `rest`: the name of the
/// region comes first if it is not empty, and the placeholder stands for the
/// region.
proof fn lemma_region(text: Seq<char>, name: Seq<char>, rest: Seq<char>)
    requires
        !text.contains('{'),
        !name.contains('}'),
    ensures
        path_params(text + seq!['{'] + name + seq!['}'] + rest) == named(seq![name])
            + path_params(rest),
        normalized_path(text + seq!['{'] + name + seq!['}'] + rest) == text + placeholder()
            + normalized_path(rest),
{
    let s = text + seq!['{'] + name + seq!['}'] + rest;
    let open = text.len() as int;
    let len = name.len() as int;
    lemma_first_at(s, '{', open);
    lemma_first_at(s.skip(open + 1), '}', len);
    assert(s.skip(open + len + 2) =~= rest);
    assert(s.subrange(open + 1, open + 1 + len) =~= name);
    assert(s.take(open) =~= text);
    lemma_named(name, Seq::empty());
}

/// The names that are not empty, with one more name in front.
proof fn lemma_named(name: Seq<char>, names: Seq<Seq<char>>)
    ensures
        named(Seq::empty()) == Seq::<Seq<char>>::empty(),
        named(seq![name] + names) == (if name.len() > 0 {
            seq![name]
        } else {
            Seq::empty()
        }) + named(names),
{
    reveal(Seq::filter);
    names.lemma_filter_prepend(name, |name: Seq<char>| name.len() > 0);
}

/// Where no name is empty, all the names are named.
proof fn lemma_named_all(names: Seq<Seq<char>>)
    requires
        forall|i: int| 0 <= i < names.len() ==> (#[trigger] names[i]).len() > 0,
    ensures
        named(names) == names,
    decreases names.len(),
{
    if names.len() == 0 {
        lemma_named(Seq::empty(), Seq::empty());
        assert(names =~= Seq::empty());
    } else {
        let more_names = names.drop_first();
        assert forall|i: int| 0 <= i < more_names.len() implies (#[trigger] more_names[i]).len()
            > 0 by {
            assert(more_names[i] == names[i + 1]);
        }
        lemma_named_all(more_names);
        lemma_named(names.first(), more_names);
        assert(names[0].len() > 0);
        assert(names =~= seq![names.first()] + more_names);
    }
}

/// The parts of a template without its first text and name are the parts of
/// a template.
proof fn lemma_template_rest(texts: Seq<Seq<char>>, names: Seq<Seq<char>>)
    requires
        template_parts(texts, names),
        names.len() > 0,
    ensures
        template_parts(texts.drop_first(), names.drop_first()),
        !texts.first().contains('{'),
        !names.first().contains('}'),
        names == seq![names.first()] + names.drop_first(),
{
    assert(!texts[0].contains('{') && !names[0].contains('}'));
    let more_texts = texts.drop_first();
    let more_names = names.drop_first();
    assert forall|i: int| 0 <= i < more_texts.len() implies !(#[trigger] more_texts[i]).contains(
        '{',
    ) by {
        assert(more_texts[i] == texts[i + 1]);
    }
    assert forall|i: int| 0 <= i < more_names.len() implies !(#[trigger] more_names[i]).contains(
        '}',
    ) by {
        assert(more_names[i] == names[i + 1]);
    }
    assert(names =~= seq![names.first()] + names.drop_first());
}

/// A template has the names of its regions that are not empty, in order, and
/// its normalized path keeps its texts as they are, with the placeholder for
/// each region.
pub proof fn lemma_template(texts: Seq<Seq<char>>, names: Seq<Seq<char>>)
    requires
        template_parts(texts, names),
    ensures
        path_params(template(texts, names)) == named(names),
        normalized_path(template(texts, names)) == joined(texts),
        extracted(template(texts, names)) == if named(names).len() == 0 {
            None
        } else {
            Some((named(names), joined(texts)))
        },
    decreases names.len(),
{
    if names.len() == 0 {
        assert(!texts[0].contains('{'));
        lemma_no_brace(texts.first());
        lemma_named(Seq::empty(), Seq::empty());
    } else {
        lemma_template_rest(texts, names);
        lemma_template(texts.drop_first(), names.drop_first());
        lemma_region(
            texts.first(),
            names.first(),
            template(texts.drop_first(), names.drop_first()),
        );
        lemma_named(names.first(), names.drop_first());
        lemma_named(names.first(), Seq::empty());
    }
}

/// A template of as many regions as one likes, none of them without a name,
/// has exactly the names of the regions, in order, and its normalized path
/// keeps its texts as they are, with the placeholder for each region.
pub proof fn lemma_named_template(texts: Seq<Seq<char>>, names: Seq<Seq<char>>)
    requires
        template_parts(texts, names),
        forall|i: int| 0 <= i < names.len() ==> (#[trigger] names[i]).len() > 0,
    ensures
        path_params(template(texts, names)) == names,
        normalized_path(template(texts, names)) == joined(texts),
        extracted(template(texts, names)) == if names.len() == 0 {
            None
        } else {
            Some((names, joined(texts)))
        },
{
    lemma_template(texts, names);
    lemma_named_all(names);
}

/// An opening brace that is never closed adds no name to those of the
/// template before it. In the normalized path the placeholder stands for it,
/// followed by the text since the last region, the brace, and what follows
/// the brace.
pub proof fn lemma_unclosed_brace(texts: Seq<Seq<char>>, names: Seq<Seq<char>>, after: Seq<char>)
    requires
        template_parts(texts, names),
        !after.contains('}'),
    ensures
        path_params(template(texts, names) + seq!['{'] + after) == named(names),
        normalized_path(template(texts, names) + seq!['{'] + after) == joined(texts)
            + placeholder() + texts.last() + seq!['{'] + after,
    decreases names.len(),
{
    let s = template(texts, names) + seq!['{'] + after;
    if names.len() == 0 {
        let open = texts.first().len() as int;
        assert(!texts[0].contains('{'));
        lemma_first_at(s, '{', open);
        assert(s.skip(open + 1) =~= after);
        lemma_first_none(after, '}');
        assert(s.take(open) =~= texts.first());
        lemma_named(Seq::empty(), Seq::empty());
    } else {
        let rest = template(texts.drop_first(), names.drop_first()) + seq!['{'] + after;
        assert(s =~= texts.first() + seq!['{'] + names.first() + seq!['}'] + rest);
        lemma_template_rest(texts, names);
        lemma_unclosed_brace(texts.drop_first(), names.drop_first(), after);
        lemma_region(texts.first(), names.first(), rest);
        lemma_named(names.first(), names.drop_first());
        lemma_named(names.first(), Seq::empty());
        assert(texts.last() == texts.drop_first().last());
        assert(normalized_path(s) =~= joined(texts) + placeholder() + texts.last() + seq!['{']
            + after);
    }
}

/// Extracts the parameter names of a path template and normalizes the path.
///
/// Returns nothing where the path names no parameter; the caller then uses
/// the path as it is. The braces are not checked for balance: a closing brace
/// outside a region is text, an opening brace inside a region is part of the
/// name, and an opening brace that is never closed adds no name.
pub fn extract_params(path: &str) -> (r: Option<(Vec<&str>, String)>)
    ensures
        extracted(path@) == (match r {
            Some((names, clean)) => Some((str_views(names@), clean@)),
            None => None,
        }),
        !path@.contains('{') ==> r is None,
{
    let n = path.unicode_len();
    let mut params: Vec<&str> = Vec::new();
    let mut clean = String::new();
    let mut last_end: usize = 0;
    let mut in_param = false;
    let mut param_start: usize = 0;
    let mut i: usize = 0;
    let ghost s = path@;
    let ghost mut settled: Seq<char> = Seq::empty();
    proof {
        assert(s.skip(0) =~= s);
    }
    for c in it: path.chars()
        invariant
            it.seq() == s,
            s == path@,
            n == s.len(),
            i == it.index(),
            last_end <= i <= n,
            normalized_path(s) == settled + normalized_path(s.skip(last_end as int)),
            path_params(s) == str_views(params@) + path_params(s.skip(last_end as int)),
            !in_param ==> clean@ == settled && forall|k: int| last_end <= k < i ==> s[k] != '{',
            in_param ==> {
                &&& last_end < param_start <= i
                &&& s[param_start - 1] == '{'
                &&& forall|k: int| last_end <= k < param_start - 1 ==> s[k] != '{'
                &&& forall|k: int| param_start <= k < i ==> s[k] != '}'
                &&& clean@ == settled + s.subrange(last_end as int, param_start - 1)
                    + placeholder()
            },
    {
        if c == '{' && !in_param {
            in_param = true;
            clean.append(path.substring_char(last_end, i));
            clean.push('{');
            clean.push('}');
            param_start = i + 1;
        } else if c == '}' && in_param {
            in_param = false;
            let ghost tail = s.skip(last_end as int);
            let ghost open = param_start - 1 - last_end;
            let ghost len = i - param_start;
            proof {
                lemma_first_at(tail, '{', open);
                assert(tail.skip(open + 1) =~= s.skip(param_start as int));
                lemma_first_at(s.skip(param_start as int), '}', len);
                assert(tail.skip(open + len + 2) =~= s.skip(i + 1));
                assert(tail.subrange(open + 1, open + 1 + len) =~= s.subrange(
                    param_start as int,
                    i as int,
                ));
            }
            if i > param_start {
                params.push(path.substring_char(param_start, i));
            }
            last_end = i + 1;
            proof {
                settled = clean@;
            }
        }
        i = i + 1;
    }
    let ghost tail = s.skip(last_end as int);
    proof {
        if in_param {
            lemma_first_at(tail, '{', param_start - 1 - last_end);
            assert(tail.skip(param_start - last_end) =~= s.skip(param_start as int));
            lemma_first_none(s.skip(param_start as int), '}');
        } else {
            lemma_first_none(tail, '{');
        }
        if !s.contains('{') {
            lemma_no_brace(s);
        }
    }
    if last_end < n {
        clean.append(path.substring_char(last_end, n));
    }
    if params.len() == 0 {
        None
    } else {
        Some((params, clean))
    }
}

} // verus!

//! The mathematical model of an ordered list of query parameters, and how such
//! a list is rendered into the query part of a URL.

use vstd::prelude::*;

verus! {

/// One query parameter: its key and its value.
pub type ParamView = (Seq<char>, Seq<char>);

/// No two entries of the list share a key.
pub open spec fn keys_distinct(ps: Seq<ParamView>) -> bool {
    forall|i: int, j: int| 0 <= i < j < ps.len() ==> (#[trigger] ps[i]).0 != (#[trigger] ps[j]).0
}

/// Entry `i` of the list exists and carries the key `key`.
pub open spec fn key_at(ps: Seq<ParamView>, key: Seq<char>, i: int) -> bool {
    0 <= i < ps.len() && ps[i].0 == key
}

/// Some entry of the list carries the key `key`.
pub open spec fn has_key(ps: Seq<ParamView>, key: Seq<char>) -> bool {
    exists|i: int| key_at(ps, key, i)
}

/// The position of an entry with the key `key`, where there is one.
pub open spec fn index_of_key(ps: Seq<ParamView>, key: Seq<char>) -> int
    recommends
        has_key(ps, key),
{
    choose|i: int| key_at(ps, key, i)
}

/// The value stored under `key`, if any.
pub open spec fn value_of(ps: Seq<ParamView>, key: Seq<char>) -> Option<Seq<char>> {
    if has_key(ps, key) {
        Some(ps[index_of_key(ps, key)].1)
    } else {
        None
    }
}

/// The list after `key` has been given the value `value`: an existing entry
/// keeps its place and takes the new value, a new key goes to the end.
pub open spec fn with_param(ps: Seq<ParamView>, key: Seq<char>, value: Seq<char>) -> Seq<
    ParamView,
> {
    if has_key(ps, key) {
        ps.update(index_of_key(ps, key), (key, value))
    } else {
        ps.push((key, value))
    }
}

/// The text of one parameter: `key=value&`, the separator included.
pub open spec fn fragment(p: ParamView) -> Seq<char> {
    p.0 + seq!['='] + p.1 + seq!['&']
}

/// The text of all parameters, in list order. Every parameter, the last one
/// too, is followed by `&`.
pub open spec fn render_params(ps: Seq<ParamView>) -> Seq<char>
    decreases ps.len(),
{
    if ps.len() == 0 {
        Seq::empty()
    } else {
        render_params(ps.drop_last()) + fragment(ps.last())
    }
}

/// The summed length of the texts of all parameters.
pub open spec fn fragments_len(ps: Seq<ParamView>) -> nat
    decreases ps.len(),
{
    if ps.len() == 0 {
        0
    } else {
        fragments_len(ps.drop_last()) + fragment(ps.last()).len()
    }
}

/// The text of one parameter without its separator: `key=value`.
pub open spec fn pair_text(p: ParamView) -> Seq<char> {
    p.0 + seq!['='] + p.1
}

/// `part` occurs in `text` as a contiguous run of characters.
pub open spec fn occurs_in(part: Seq<char>, text: Seq<char>) -> bool {
    exists|at: int| occurs_at(part, text, at)
}

/// `part` occurs in `text` starting at offset `at`.
pub open spec fn occurs_at(part: Seq<char>, text: Seq<char>, at: int) -> bool {
    0 <= at && at + part.len() <= text.len() && text.subrange(at, at + part.len()) == part
}

/// In a list with distinct keys, a key is found at one position only.
pub proof fn lemma_key_position_unique(ps: Seq<ParamView>, key: Seq<char>, i: int)
    requires
        keys_distinct(ps),
        key_at(ps, key, i),
    ensures
        has_key(ps, key),
        index_of_key(ps, key) == i,
        value_of(ps, key) == Some(ps[i].1),
{
    let j = index_of_key(ps, key);
    assert(key_at(ps, key, j));
    if j < i {
        assert(ps[j].0 != ps[i].0);
    } else if i < j {
        assert(ps[i].0 != ps[j].0);
    }
}

/// Setting a parameter keeps the keys distinct, stores the value under the
/// key, and leaves every other key with the value it had.
pub proof fn lemma_with_param(ps: Seq<ParamView>, key: Seq<char>, value: Seq<char>)
    requires
        keys_distinct(ps),
    ensures
        keys_distinct(with_param(ps, key, value)),
        value_of(with_param(ps, key, value), key) == Some(value),
        forall|other: Seq<char>|
            other != key ==> #[trigger] value_of(with_param(ps, key, value), other) == value_of(
                ps,
                other,
            ),
        with_param(ps, key, value).len() == ps.len() + (if has_key(ps, key) {
            0int
        } else {
            1int
        }),
{
    let qs = with_param(ps, key, value);
    let at = if has_key(ps, key) {
        index_of_key(ps, key)
    } else {
        ps.len() as int
    };
    assert(has_key(ps, key) ==> key_at(ps, key, at));
    assert(key_at(qs, key, at));
    assert forall|i: int| 0 <= i < qs.len() implies (#[trigger] qs[i]).0 == (if i < ps.len() {
        ps[i].0
    } else {
        key
    }) by {}
    assert(keys_distinct(qs)) by {
        assert forall|i: int, j: int| 0 <= i < j < qs.len() implies (#[trigger] qs[i]).0 != (
        #[trigger] qs[j]).0 by {
            if j < ps.len() {
                assert(ps[i].0 != ps[j].0);
            } else {
                assert(!key_at(ps, key, i));
            }
        }
    }
    lemma_key_position_unique(qs, key, at);
    assert forall|other: Seq<char>| other != key implies #[trigger] value_of(qs, other)
        == value_of(ps, other) by {
        if has_key(ps, other) {
            let i = index_of_key(ps, other);
            assert(key_at(ps, other, i));
            assert(key_at(qs, other, i));
            lemma_key_position_unique(qs, other, i);
        } else if has_key(qs, other) {
            let i = index_of_key(qs, other);
            assert(key_at(qs, other, i));
            assert(key_at(ps, other, i));
        }
    }
}

/// Last write wins: after a key has been set twice, the list is what it would
/// be had only the second value been set, and the key occurs exactly once, with
/// the second value.
pub proof fn lemma_with_param_twice(
    ps: Seq<ParamView>,
    key: Seq<char>,
    first: Seq<char>,
    second: Seq<char>,
)
    requires
        keys_distinct(ps),
    ensures
        with_param(with_param(ps, key, first), key, second) == with_param(ps, key, second),
        value_of(with_param(with_param(ps, key, first), key, second), key) == Some(second),
        forall|i: int, j: int|
            key_at(with_param(with_param(ps, key, first), key, second), key, i) && key_at(
                with_param(with_param(ps, key, first), key, second),
                key,
                j,
            ) ==> i == j,
{
    let once = with_param(ps, key, first);
    let twice = with_param(once, key, second);
    let at = if has_key(ps, key) {
        index_of_key(ps, key)
    } else {
        ps.len() as int
    };
    assert(has_key(ps, key) ==> key_at(ps, key, at));
    lemma_with_param(ps, key, first);
    assert(key_at(once, key, at));
    lemma_key_position_unique(once, key, at);
    assert(twice =~= with_param(ps, key, second));
    lemma_with_param(once, key, second);
    assert forall|i: int, j: int| key_at(twice, key, i) && key_at(twice, key, j) implies i
        == j by {
        lemma_key_position_unique(twice, key, i);
        lemma_key_position_unique(twice, key, j);
    }
}

/// Rendering a list extended by one parameter appends that parameter's text.
pub proof fn lemma_render_push(ps: Seq<ParamView>, p: ParamView)
    ensures
        render_params(ps.push(p)) == render_params(ps) + fragment(p),
        fragments_len(ps.push(p)) == fragments_len(ps) + fragment(p).len(),
{
    assert(ps.push(p).drop_last() =~= ps);
}

/// The rendered parameters are as long as their texts together.
pub proof fn lemma_render_len(ps: Seq<ParamView>)
    ensures
        render_params(ps).len() == fragments_len(ps),
    decreases ps.len(),
{
    if ps.len() > 0 {
        lemma_render_len(ps.drop_last());
    }
}

/// A non-empty list renders to a text that ends with the separator `&`.
pub proof fn lemma_render_ends_with_separator(ps: Seq<ParamView>)
    requires
        ps.len() > 0,
    ensures
        render_params(ps).len() > 0,
        render_params(ps).last() == '&',
{
}

/// The text of every parameter of the list occurs in the rendered list, with
/// its separator and so also without it.
pub proof fn lemma_render_holds_fragment(ps: Seq<ParamView>, i: int)
    requires
        0 <= i < ps.len(),
    ensures
        occurs_in(fragment(ps[i]), render_params(ps)),
        occurs_in(pair_text(ps[i]), render_params(ps)),
    decreases ps.len(),
{
    lemma_render_holds_fragment_only(ps, i);
    let text = render_params(ps);
    let at = choose|at: int| occurs_at(fragment(ps[i]), text, at);
    assert(occurs_at(fragment(ps[i]), text, at));
    assert(text.subrange(at, at + pair_text(ps[i]).len()) =~= text.subrange(
        at,
        at + fragment(ps[i]).len(),
    ).subrange(0, pair_text(ps[i]).len() as int));
    assert(fragment(ps[i]).subrange(0, pair_text(ps[i]).len() as int) =~= pair_text(ps[i]));
    assert(occurs_at(pair_text(ps[i]), text, at));
}

proof fn lemma_render_holds_fragment_only(ps: Seq<ParamView>, i: int)
    requires
        0 <= i < ps.len(),
    ensures
        occurs_in(fragment(ps[i]), render_params(ps)),
    decreases ps.len(),
{
    let text = render_params(ps);
    let head = render_params(ps.drop_last());
    if i == ps.len() - 1 {
        assert(text.subrange(head.len() as int, (head.len() + fragment(ps[i]).len()) as int)
            =~= fragment(ps[i]));
        assert(occurs_at(fragment(ps[i]), text, head.len() as int));
    } else {
        lemma_render_holds_fragment_only(ps.drop_last(), i);
        let at = choose|at: int| occurs_at(fragment(ps[i]), head, at);
        assert(occurs_at(fragment(ps[i]), head, at));
        assert(text.subrange(at, at + fragment(ps[i]).len()) =~= head.subrange(
            at,
            at + fragment(ps[i]).len(),
        ));
        assert(occurs_at(fragment(ps[i]), text, at));
    }
}

} // verus!

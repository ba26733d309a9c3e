//! Query strings: `key=value` parameters separated by `&`.

use crate::text::{
    chars_eq, chars_of, contains_char, find_char, index_of, lemma_index_of, lemma_index_of_is,
    pieces_view, slice_chars, split, split_chars, string_of_range,
};
use vstd::prelude::*;

verus! {

/// What follows the first `?` of a request target or URL, if there is one.
pub open spec fn after_question(target: Seq<char>) -> Option<Seq<char>> {
    let q = index_of(target, '?');
    if q < target.len() {
        Some(target.skip(q + 1))
    } else {
        None
    }
}

/// The parameter `param` is `key=value` for the given key: its text before
/// the first `=` is the key.
pub open spec fn has_key(param: Seq<char>, key: Seq<char>) -> bool {
    let eq = index_of(param, '=');
    eq < param.len() && param.take(eq) == key
}

/// The value of a `key=value` parameter: what follows its first `=`.
pub open spec fn value_of(param: Seq<char>) -> Seq<char> {
    param.skip(index_of(param, '=') + 1)
}

/// The value of the first parameter with the given key, if there is one.
/// A parameter without `=` has no key.
pub open spec fn first_value(params: Seq<Seq<char>>, key: Seq<char>) -> Option<Seq<char>>
    decreases params.len(),
{
    if params.len() == 0 {
        None
    } else if has_key(params[0], key) {
        Some(value_of(params[0]))
    } else {
        first_value(params.drop_first(), key)
    }
}

/// The value that a query string gives to `key`: that of the first of its
/// `&`-separated parameters with that key.
pub open spec fn query_value(query: Seq<char>, key: Seq<char>) -> Option<Seq<char>> {
    first_value(split(query, '&'), key)
}

/// A parameter made of a key without `=`, an `=` and a value has that key
/// and that value, and no other key.
pub proof fn lemma_parameter(key: Seq<char>, value: Seq<char>)
    requires
        !contains_char(key, '='),
    ensures
        has_key(key.push('=') + value, key),
        value_of(key.push('=') + value) == value,
        forall|other: Seq<char>| other != key ==> !has_key(key.push('=') + value, other),
{
    let param = key.push('=') + value;
    lemma_index_of(key, '=');
    assert forall|j: int| 0 <= j < key.len() implies param[j] != '=' by {
        assert(param[j] == key[j]);
    }
    assert(param[key.len() as int] == '=');
    lemma_index_of_is(param, '=', key.len() as int);
    assert(param.take(key.len() as int) =~= key);
    assert(param.skip(key.len() as int + 1) =~= value);
}

/// The first parameter with the key decides; parameters with other keys
/// before it are passed over.
pub proof fn lemma_first_value_skip(params: Seq<Seq<char>>, key: Seq<char>, k: int)
    requires
        0 <= k <= params.len(),
        forall|j: int| 0 <= j < k ==> !has_key(#[trigger] params[j], key),
    ensures
        first_value(params, key) == first_value(params.skip(k), key),
    decreases k,
{
    if k == 0 {
        assert(params.skip(0) =~= params);
    } else {
        assert(!has_key(params[0], key));
        let rest = params.drop_first();
        assert forall|j: int| 0 <= j < k - 1 implies !has_key(#[trigger] rest[j], key) by {
            assert(rest[j] == params[j + 1]);
        }
        lemma_first_value_skip(rest, key, k - 1);
        assert(rest.skip(k - 1) =~= params.skip(k));
    }
}

/// The value of the first of `params` with the key `key`.
pub fn find_value(params: &Vec<Vec<char>>, key: &Vec<char>) -> (value: Option<String>)
    ensures
        match first_value(pieces_view(params@), key@) {
            Some(v) => value matches Some(s) && s@ == v,
            None => value is None,
        },
{
    let ghost all = pieces_view(params@);
    let mut i: usize = 0;
    while i < params.len()
        invariant
            i <= params.len(),
            all == pieces_view(params@),
            forall|j: int| 0 <= j < i ==> !has_key(#[trigger] all[j], key@),
        decreases params.len() - i,
    {
        let param = &params[i];
        let eq = find_char(param, 0, '=');
        proof {
            assert(param@.skip(0) =~= param@);
            assert(all[i as int] == param@);
        }
        if eq < param.len() {
            let name = slice_chars(param, 0, eq);
            if chars_eq(&name, key) {
                let value = string_of_range(param, eq + 1, param.len());
                proof {
                    assert(param@.take(eq as int) =~= param@.subrange(0, eq as int));
                    assert(param@.skip(eq as int + 1) =~= param@.subrange(
                        eq as int + 1,
                        param@.len() as int,
                    ));
                    lemma_first_value_skip(all, key@, i as int);
                    assert(all.skip(i as int)[0] == all[i as int]);
                }
                return Some(value);
            }
            proof {
                assert(param@.take(eq as int) =~= param@.subrange(0, eq as int));
            }
        }
        i += 1;
    }
    proof {
        lemma_first_value_skip(all, key@, params.len() as int);
        assert(all.skip(params.len() as int) =~= Seq::<Seq<char>>::empty());
    }
    None
}

/// The value that the query string `query` gives to `key`.
pub fn find_query_value(query: &Vec<char>, key: &str) -> (value: Option<String>)
    ensures
        match query_value(query@, key@) {
            Some(v) => value matches Some(s) && s@ == v,
            None => value is None,
        },
{
    let params = split_chars(query, '&');
    let key_chars = chars_of(key);
    find_value(&params, &key_chars)
}

} // verus!

//! Type names in diagnostics are written in capitalized camel case.

use case::CaseExt;
use vstd::prelude::*;

verus! {

/// The upper-case form of an ASCII lower-case letter; any other character is
/// left as it is.
pub open spec fn ascii_upper(c: char) -> char {
    if 'a' <= c && c <= 'z' {
        ((c as u32) - 32) as char
    } else {
        c
    }
}

/// Drops every underscore of `s` and puts the first character after each run
/// of underscores into upper case; `at_new_word` says whether the first
/// character of `s` starts a word.
pub open spec fn camel_from(s: Seq<char>, at_new_word: bool) -> Seq<char>
    decreases s.len(),
{
    if s.len() == 0 {
        Seq::empty()
    } else if s[0] == '_' {
        camel_from(s.skip(1), true)
    } else if at_new_word {
        seq![ascii_upper(s[0])] + camel_from(s.skip(1), false)
    } else {
        seq![s[0]] + camel_from(s.skip(1), false)
    }
}

/// The capitalized camel-case form of a snake-case name.
pub open spec fn camel_case(s: Seq<char>) -> Seq<char> {
    camel_from(s, true)
}

/// Calls `case::CaseExt::to_camel` on `name`. Trusted: the result is `name`
/// without its underscores, where the first character and each character
/// that followed an underscore went through `char::to_ascii_uppercase`.
#[verifier::external_body]
pub(crate) fn to_camel(name: &str) -> (camel: String)
    ensures
        camel@ == camel_case(name@),
{
    name.to_camel()
}

/// A sequence without underscores stays as it is, but for its first
/// character where that starts a word.
pub proof fn lemma_camel_from_plain(s: Seq<char>)
    requires
        forall|i: int| 0 <= i < s.len() ==> s[i] != '_',
    ensures
        camel_from(s, false) == s,
        s.len() > 0 ==> camel_from(s, true) == seq![ascii_upper(s[0])] + s.skip(1),
        s.len() == 0 ==> camel_from(s, true) == s,
    decreases s.len(),
{
    if s.len() > 0 {
        lemma_camel_from_plain(s.skip(1));
        assert(seq![s[0]] + s.skip(1) =~= s);
    } else {
        assert(camel_from(s, true) =~= s);
        assert(camel_from(s, false) =~= s);
    }
}

/// The camel-case form holds no underscore, and starts with a character in
/// upper case where it was to start a word.
pub proof fn lemma_camel_from_shape(s: Seq<char>, at_new_word: bool)
    ensures
        forall|i: int| 0 <= i < camel_from(s, at_new_word).len() ==> camel_from(s, at_new_word)[i]
            != '_',
        at_new_word && camel_from(s, at_new_word).len() > 0 ==> ascii_upper(
            camel_from(s, at_new_word)[0],
        ) == camel_from(s, at_new_word)[0],
    decreases s.len(),
{
    let camel = camel_from(s, at_new_word);
    if s.len() > 0 {
        lemma_camel_from_shape(s.skip(1), true);
        lemma_camel_from_shape(s.skip(1), false);
        if s[0] != '_' {
            let rest = camel_from(s.skip(1), false);
            assert(ascii_upper(s[0]) != '_');
            assert(ascii_upper(ascii_upper(s[0])) == ascii_upper(s[0]));
            assert forall|i: int| 0 <= i < camel.len() implies camel[i] != '_' by {
                if i > 0 {
                    assert(camel[i] == rest[i - 1]);
                }
            }
        }
    }
}

/// The camel-case form of a name is its own camel-case form: a name may be
/// looked up as the schema writes it or as the library does.
pub proof fn lemma_camel_case_idempotent(s: Seq<char>)
    ensures
        camel_case(camel_case(s)) == camel_case(s),
{
    let once = camel_case(s);
    lemma_camel_from_shape(s, true);
    lemma_camel_from_plain(once);
    if once.len() > 0 {
        assert(seq![once[0]] + once.skip(1) =~= once);
    }
}

/// The camel-case forms of the given names, in order.
pub open spec fn camel_cases(names: Seq<String>) -> Seq<Seq<char>> {
    Seq::new(names.len(), |i: int| camel_case(names[i]@))
}

/// The names as sequences of characters.
pub open spec fn name_views(names: Seq<String>) -> Seq<Seq<char>> {
    Seq::new(names.len(), |i: int| names[i]@)
}

/// The position, from `from` on, of the first name that is `key`, if there
/// is one.
pub open spec fn find_name(names: Seq<Seq<char>>, key: Seq<char>, from: int) -> Option<int>
    decreases names.len() - from,
{
    if from < 0 || from >= names.len() {
        None
    } else if names[from] == key {
        Some(from)
    } else {
        find_name(names, key, from + 1)
    }
}

/// The camel-case forms of the given names, in order.
pub fn to_camel_all(names: &Vec<String>) -> (camel: Vec<String>)
    ensures
        camel@.len() == names@.len(),
        name_views(camel@) == camel_cases(names@),
{
    let mut camel: Vec<String> = Vec::with_capacity(names.len());
    let mut i: usize = 0;
    while i < names.len()
        invariant
            i <= names.len(),
            camel@.len() == i,
            forall|j: int| 0 <= j < i ==> (#[trigger] camel@[j])@ == camel_case(names@[j]@),
        decreases names.len() - i,
    {
        camel.push(to_camel(names[i].as_str()));
        i += 1;
    }
    assert(name_views(camel@) =~= camel_cases(names@));
    camel
}

/// The position of the first of `names` whose text is the camel-case form
/// of `name`.
pub fn position(names: &Vec<String>, name: &str) -> (found: Option<usize>)
    ensures
        match found {
            Some(i) => i < names.len() && find_name(name_views(names@), camel_case(name@), 0)
                == Some(i as int),
            None => find_name(name_views(names@), camel_case(name@), 0) is None,
        },
{
    let key = to_camel(name);
    let ghost views = name_views(names@);
    let mut i: usize = 0;
    while i < names.len()
        invariant
            i <= names.len(),
            views == name_views(names@),
            key@ == camel_case(name@),
            find_name(views, key@, 0) == find_name(views, key@, i as int),
        decreases names.len() - i,
    {
        assert(views[i as int] == names@[i as int]@);
        if names[i] == key {
            return Some(i);
        }
        i += 1;
    }
    None
}

} // verus!

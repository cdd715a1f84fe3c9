//! Small helpers over the characters of a string: identifiers, paths made
//! of identifiers joined by `/`, and word matching for the value parsers.

use vstd::prelude::*;

verus! {

/// The character that joins the identifiers of a path.
pub open spec fn separator() -> char {
    '/'
}

/// The path `parent/id`.
pub open spec fn join_path(parent: Seq<char>, id: Seq<char>) -> Seq<char> {
    parent + seq![separator()] + id
}

/// The characters of an optional string.
pub open spec fn text_view(text: Option<String>) -> Option<Seq<char>> {
    match text {
        Some(s) => Some(s@),
        None => None,
    }
}

/// The characters of `s`, in order.
pub fn chars_of(s: &str) -> (v: Vec<char>)
    ensures
        v@ == s@,
{
    let mut v: Vec<char> = Vec::new();
    for c in it: s.chars()
        invariant
            it.seq() == s@,
            v@ == it.seq().take(it.index() as int),
    {
        v.push(c);
    }
    v
}

/// Whether `/` occurs in `s`.
pub fn has_separator(s: &str) -> (found: bool)
    ensures
        found == s@.contains(separator()),
{
    let mut found = false;
    for c in it: s.chars()
        invariant
            it.seq() == s@,
            found == exists|j: int| 0 <= j < it.index() && s@[j] == separator(),
    {
        if c == '/' {
            found = true;
        }
    }
    found
}

/// Builds the path `parent/id`.
pub fn path_of(parent: &str, id: &str) -> (path: String)
    ensures
        path@ == join_path(parent@, id@),
{
    let mut path = String::from_str(parent);
    path.append("/");
    path.append(id);
    proof {
        reveal_strlit("/");
        assert("/"@ =~= seq![separator()]);
    }
    path
}

/// Whether the characters `chars[lo..hi]` spell `word`.
pub fn spells(chars: &Vec<char>, lo: usize, hi: usize, word: &str) -> (same: bool)
    requires
        lo <= hi <= chars.len(),
    ensures
        same == (chars@.subrange(lo as int, hi as int) == word@),
{
    let letters = chars_of(word);
    if letters.len() != hi - lo {
        return false;
    }
    let mut i: usize = 0;
    while i < letters.len()
        invariant
            i <= letters.len(),
            lo <= hi <= chars.len(),
            letters.len() == hi - lo,
            letters@ == word@,
            forall|j: int| 0 <= j < i ==> chars@[lo + j] == letters@[j],
        decreases letters.len() - i,
    {
        if chars[lo + i] != letters[i] {
            assert(chars@.subrange(lo as int, hi as int)[i as int] != word@[i as int]);
            return false;
        }
        i += 1;
    }
    assert(chars@.subrange(lo as int, hi as int) =~= word@);
    true
}

} // verus!

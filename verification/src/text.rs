//! Accounts and names are texts. Contracts speak of a text as its sequence
//! of characters, and of a list of texts as the sequence of those.

use vstd::prelude::*;

verus! {

/// A text as contracts see it.
pub type Text = Seq<char>;

/// The texts of a list of strings, in order.
pub open spec fn texts(v: Seq<String>) -> Seq<Text> {
    Seq::new(v.len(), |i: int| v[i]@)
}

/// Whether one of the strings in `v` reads `t`.
pub fn contains_text(v: &Vec<String>, t: &String) -> (found: bool)
    ensures
        found == texts(v@).contains(t@),
{
    let mut i: usize = 0;
    while i < v.len()
        invariant
            0 <= i <= v.len(),
            forall|j: int| 0 <= j < i ==> texts(v@)[j] != t@,
        decreases v.len() - i,
    {
        if v[i] == *t {
            assert(texts(v@)[i as int] == t@);
            return true;
        }
        i = i + 1;
    }
    false
}

/// A copy of a list of strings.
pub fn copy_texts(v: &Vec<String>) -> (w: Vec<String>)
    ensures
        texts(w@) == texts(v@),
{
    let mut w: Vec<String> = Vec::new();
    let mut i: usize = 0;
    while i < v.len()
        invariant
            0 <= i <= v.len(),
            w@.len() == i,
            forall|j: int| 0 <= j < i ==> w@[j]@ == v@[j]@,
        decreases v.len() - i,
    {
        w.push(v[i].clone());
        i = i + 1;
    }
    assert(texts(w@) =~= texts(v@));
    w
}

} // verus!

//! Lists of texts as sequences of character sequences.

use vstd::prelude::*;

verus! {

/// The texts of `list`, each as the sequence of its characters.
pub open spec fn texts(list: Seq<String>) -> Seq<Seq<char>> {
    Seq::new(list.len(), |i: int| list[i]@)
}

/// Pushing a text onto a list pushes its characters onto the list's texts.
pub proof fn lemma_texts_push(list: Seq<String>, last: String)
    ensures
        texts(list.push(last)) == texts(list).push(last@),
{
    assert(texts(list.push(last)) =~= texts(list).push(last@));
}

/// The texts of two lists, one after the other, are the texts of the joined
/// list.
pub proof fn lemma_texts_add(front: Seq<String>, back: Seq<String>)
    ensures
        texts(front + back) == texts(front) + texts(back),
{
    assert(texts(front + back) =~= texts(front) + texts(back));
}

/// The texts of a list that may be absent.
pub open spec fn texts_of(list: Option<Vec<String>>) -> Option<Seq<Seq<char>>> {
    match list {
        Some(l) => Some(texts(l@)),
        None => None,
    }
}

/// The characters of a text that may be absent.
pub open spec fn text_of(text: Option<String>) -> Option<Seq<char>> {
    match text {
        Some(t) => Some(t@),
        None => None,
    }
}

/// A copy of a text that may be absent.
pub fn copy_of(text: &Option<String>) -> (r: Option<String>)
    ensures
        text_of(r) == text_of(*text),
{
    match text {
        Some(t) => Some(t.clone()),
        None => None,
    }
}

} // verus!

use vstd::prelude::*;

verus! {

/// A metadata entry attached to a variant, in source order.
#[derive(Debug)]
pub enum Meta {
    /// A documentation entry: one line of a doc comment.
    Doc(String),
    /// Any other attribute; it plays no part in rendering.
    Other(String),
}

/// The text of the first documentation entry, if there is one.
pub open spec fn first_doc(attrs: Seq<Meta>) -> Option<Seq<char>>
    decreases attrs.len(),
{
    if attrs.len() == 0 {
        None
    } else {
        match attrs[0] {
            Meta::Doc(t) => Some(t@),
            Meta::Other(_) => first_doc(attrs.skip(1)),
        }
    }
}

/// The render template of a variant: its first documentation entry, or nothing.
pub open spec fn template_of(attrs: Seq<Meta>) -> Seq<char> {
    match first_doc(attrs) {
        Some(t) => t,
        None => Seq::empty(),
    }
}

/// Returns the text of the first documentation entry among `attrs`; later documentation
/// entries and all other entries are passed over.
pub fn doc_template(attrs: &Vec<Meta>) -> (r: Option<String>)
    ensures
        match r {
            Some(t) => first_doc(attrs@) == Some(t@),
            None => first_doc(attrs@) is None,
        },
{
    let n = attrs.len();
    let mut i: usize = 0;
    assert(attrs@.skip(0) =~= attrs@);
    while i < n
        invariant
            i <= n == attrs@.len(),
            first_doc(attrs@) == first_doc(attrs@.skip(i as int)),
        decreases n - i,
    {
        assert(attrs@.skip(i as int).skip(1) =~= attrs@.skip(i + 1));
        match &attrs[i] {
            Meta::Doc(t) => {
                return Some(t.clone());
            },
            Meta::Other(_) => {},
        }
        i = i + 1;
    }
    None
}

} // verus!

//! Positional structured diagnostics: the one shape every rejection takes.
use vstd::prelude::*;

verus! {

/// A diagnostic: a stable machine code, the structural path it points at, and a message.
#[derive(Debug, PartialEq, Eq)]
pub struct Diag {
    pub code: String,
    pub path: String,
    pub message: String,
}

pub struct DiagView {
    pub code: Seq<char>,
    pub path: Seq<char>,
    pub message: Seq<char>,
}

impl View for Diag {
    type V = DiagView;

    open spec fn view(&self) -> DiagView {
        DiagView { code: self.code@, path: self.path@, message: self.message@ }
    }
}

pub open spec fn dv(code: Seq<char>, path: Seq<char>, message: Seq<char>) -> DiagView {
    DiagView { code, path, message }
}

/// The views of a list of diagnostics.
pub open spec fn diag_views(v: Seq<Diag>) -> Seq<DiagView> {
    v.map_values(|d: Diag| d@)
}

impl Diag {
    pub fn new(code: &str, path: String, message: String) -> (d: Diag)
        ensures
            d@ == dv(code@, path@, message@),
    {
        Diag { code: String::from_str(code), path, message }
    }

    /// A field-by-field copy.
    pub fn duplicate(&self) -> (d: Diag)
        ensures
            d@ == self@,
    {
        Diag { code: self.code.clone(), path: self.path.clone(), message: self.message.clone() }
    }
}

/// A copy of a list of diagnostics.
pub fn copy_diags(v: &Vec<Diag>) -> (r: Vec<Diag>)
    ensures
        diag_views(r@) == diag_views(v@),
{
    let mut r: Vec<Diag> = Vec::new();
    let mut i: usize = 0;
    while i < v.len()
        invariant
            i <= v@.len(),
            r@.len() == i,
            forall|j: int| 0 <= j < i ==> #[trigger] r@[j]@ == v@[j]@,
        decreases v@.len() - i,
    {
        let d = v[i].duplicate();
        r.push(d);
        i = i + 1;
    }
    assert(diag_views(r@) =~= diag_views(v@));
    r
}

/// Appends all of `more` to `diags`.
pub fn extend_diags(diags: &mut Vec<Diag>, more: Vec<Diag>)
    ensures
        final(diags)@ == old(diags)@ + more@,
{
    let mut more = more;
    diags.append(&mut more);
}

} // verus!

verus! {

/// What either part holds, the concatenation holds.
pub proof fn lemma_in_cat<A>(a: Seq<A>, b: Seq<A>, x: A)
    ensures
        a.contains(x) ==> (a + b).contains(x),
        b.contains(x) ==> (a + b).contains(x),
{
    if a.contains(x) {
        let i = choose|i: int| 0 <= i < a.len() && a[i] == x;
        assert((a + b)[i] == x);
    }
    if b.contains(x) {
        let i = choose|i: int| 0 <= i < b.len() && b[i] == x;
        assert((a + b)[a.len() + i] == x);
    }
}

} // verus!

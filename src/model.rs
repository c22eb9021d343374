use vstd::prelude::*;

use crate::text::{
    chars_of, compact_chars, compact_spec, empty_mark, empty_mark_chars, escape_chars,
    escape_spec, string_from_chars, trim_chars, trimmed,
};

verus! {

/// An RDF term as the diagram reads it.
#[derive(Clone, Debug, PartialEq, Eq)]
pub enum Term {
    /// An absolute IRI.
    Iri(String),
    /// A literal, by its lexical form.
    Literal(String),
    /// A blank node, by its local identifier.
    Blank(String),
}

/// One statement of the dataset: subject, predicate, object and, unless it is in
/// the default graph, the IRI of its named graph.
#[derive(Clone, Debug, PartialEq, Eq)]
pub struct Quad {
    pub subject: Term,
    pub predicate: Term,
    pub object: Term,
    pub graph: Option<String>,
}

/// The IRIs of the four named graphs of a nanopublication.
#[derive(Clone, Debug, PartialEq, Eq)]
pub struct GraphIds {
    pub head: String,
    pub assertion: String,
    pub provenance: String,
    pub pubinfo: String,
}

/// The part of the diagram a quad is drawn in.
#[derive(Clone, Copy, Debug, PartialEq, Eq, Structural)]
pub enum Section {
    Head,
    Assertion,
    Provenance,
    Pubinfo,
    Other,
}

/// The first of head, assertion, provenance, pubinfo whose IRI equals the graph;
/// `Other` when none does or the quad is in the default graph.
pub open spec fn section_spec(graph: Option<String>, ids: GraphIds) -> Section {
    match graph {
        Some(g) => if g@ == ids.head@ {
            Section::Head
        } else if g@ == ids.assertion@ {
            Section::Assertion
        } else if g@ == ids.provenance@ {
            Section::Provenance
        } else if g@ == ids.pubinfo@ {
            Section::Pubinfo
        } else {
            Section::Other
        },
        None => Section::Other,
    }
}

pub open spec fn ellipsis() -> Seq<char> {
    seq!['.', '.', '.']
}

pub open spec fn bnode_label() -> Seq<char> {
    seq!['_', ':', 'b', 'n', 'o', 'd', 'e']
}

/// A literal's label: trimmed, `(empty)` when nothing is left, and cut to 61
/// characters followed by `...` when longer than 64.
pub open spec fn literal_label(s: Seq<char>) -> Seq<char> {
    let t = trimmed(s);
    if t.len() == 0 {
        empty_mark()
    } else if t.len() > 64 {
        t.take(61) + ellipsis()
    } else {
        t
    }
}

/// The display label of a subject or object; it is also the node's identity.
pub open spec fn label_spec(t: Term) -> Seq<char> {
    match t {
        Term::Iri(s) => compact_spec(s@),
        Term::Literal(s) => literal_label(s@),
        Term::Blank(_) => bnode_label(),
    }
}

/// The label of a predicate: the compact IRI, or nothing when it is no IRI.
pub open spec fn predicate_label_spec(t: Term) -> Seq<char> {
    match t {
        Term::Iri(s) => compact_spec(s@),
        _ => Seq::empty(),
    }
}

impl Section {
    pub open spec fn name_spec(self) -> Seq<char> {
        match self {
            Section::Head => seq!['h', 'e', 'a', 'd'],
            Section::Assertion => seq!['a', 's', 's', 'e', 'r', 't', 'i', 'o', 'n'],
            Section::Provenance => seq!['p', 'r', 'o', 'v', 'e', 'n', 'a', 'n', 'c', 'e'],
            Section::Pubinfo => seq!['p', 'u', 'b', 'i', 'n', 'f', 'o'],
            Section::Other => seq!['o', 't', 'h', 'e', 'r'],
        }
    }

    /// The section's name as a subgraph title.
    pub fn name_chars(&self) -> (r: Vec<char>)
        ensures
            r@ == self.name_spec(),
    {
        let r = match self {
            Section::Head => vec!['h', 'e', 'a', 'd'],
            Section::Assertion => vec!['a', 's', 's', 'e', 'r', 't', 'i', 'o', 'n'],
            Section::Provenance => vec!['p', 'r', 'o', 'v', 'e', 'n', 'a', 'n', 'c', 'e'],
            Section::Pubinfo => vec!['p', 'u', 'b', 'i', 'n', 'f', 'o'],
            Section::Other => vec!['o', 't', 'h', 'e', 'r'],
        };
        assert(r@ =~= self.name_spec());
        r
    }

    pub fn name(&self) -> (r: String)
        ensures
            r@ == self.name_spec(),
    {
        string_from_chars(&self.name_chars())
    }
}

/// Routes a quad by the IRI of its graph.
pub fn section_of(graph: &Option<String>, ids: &GraphIds) -> (r: Section)
    ensures
        r == section_spec(*graph, *ids),
{
    match graph {
        Some(g) => if *g == ids.head {
            Section::Head
        } else if *g == ids.assertion {
            Section::Assertion
        } else if *g == ids.provenance {
            Section::Provenance
        } else if *g == ids.pubinfo {
            Section::Pubinfo
        } else {
            Section::Other
        },
        None => Section::Other,
    }
}

pub fn literal_label_chars(s: &Vec<char>) -> (r: Vec<char>)
    ensures
        r@ == literal_label(s@),
{
    let t = trim_chars(s);
    if t.len() == 0 {
        return empty_mark_chars();
    }
    if t.len() <= 64 {
        return t;
    }
    let mut r: Vec<char> = Vec::new();
    let mut k: usize = 0;
    while k < 61
        invariant
            k <= 61 < t.len(),
            r@ == t@.take(k as int),
        decreases 61 - k,
    {
        r.push(t[k]);
        k += 1;
        assert(r@ =~= t@.take(k as int));
    }
    r.push('.');
    r.push('.');
    r.push('.');
    assert(r@ =~= t@.take(61) + ellipsis());
    r
}

pub fn label_chars(t: &Term) -> (r: Vec<char>)
    ensures
        r@ == label_spec(*t),
{
    match t {
        Term::Iri(s) => compact_chars(&chars_of(s.as_str())),
        Term::Literal(s) => literal_label_chars(&chars_of(s.as_str())),
        Term::Blank(_) => {
            let r = vec!['_', ':', 'b', 'n', 'o', 'd', 'e'];
            assert(r@ =~= bnode_label());
            r
        },
    }
}

pub fn predicate_label_chars(t: &Term) -> (r: Vec<char>)
    ensures
        r@ == predicate_label_spec(*t),
{
    match t {
        Term::Iri(s) => compact_chars(&chars_of(s.as_str())),
        _ => Vec::new(),
    }
}

/// The display label of a subject or object term.
pub fn term_label(t: &Term) -> (r: String)
    ensures
        r@ == label_spec(*t),
{
    string_from_chars(&label_chars(t))
}

/// The label of a predicate, given by its IRI.
pub fn pred_label(p: &str) -> (r: String)
    ensures
        r@ == compact_spec(p@),
{
    compact_iri(p)
}

/// The local name of an IRI: after the last `#`, else after the last `/`, else all of it.
pub fn compact_iri(s: &str) -> (r: String)
    ensures
        r@ == compact_spec(s@),
{
    string_from_chars(&compact_chars(&chars_of(s)))
}

/// A label made safe for a quoted diagram label.
pub fn escape_mermaid(s: &str) -> (r: String)
    ensures
        r@ == escape_spec(s@),
{
    string_from_chars(&escape_chars(&chars_of(s)))
}

} // verus!

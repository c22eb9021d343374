use vstd::prelude::*;

use crate::diagram::{
    block, decl_line, decls, discovered, edges, in_section, index_in, lemma_add_label,
    lemma_discovered_grows, lemma_index_in, node_ref,
};
use crate::model::{bnode_label, ellipsis, label_spec, literal_label, section_spec, GraphIds, Quad, Section, Term};
use crate::text::{empty_mark, escape_spec, quotes_escaped, trimmed};

verus! {

/// Node ids depend on the labels alone: a label keeps the id it was given when
/// first met, later quads never change it, and two labels share an id only when
/// they are the same label. So two renderings of the same quads give each label
/// the same id.
pub proof fn law_node_ids_deterministic(qs: Seq<Option<Quad>>, j: int, l1: Seq<char>, l2: Seq<char>)
    requires
        0 <= j <= qs.len(),
        discovered(qs.take(j)).contains(l1),
        discovered(qs).contains(l2),
    ensures
        index_in(discovered(qs.take(j)), l1) == index_in(discovered(qs), l1),
        (index_in(discovered(qs), l1) == index_in(discovered(qs), l2)) == (l1 == l2),
{
    lemma_discovered_grows(qs, j);
    lemma_discovered_grows(qs.take(j), 0);
    let p = discovered(qs.take(j));
    let d = discovered(qs);
    lemma_index_in(p, l1);
    let k = index_in(p, l1);
    assert(d[k] == l1);
    assert(d.contains(l1));
    lemma_index_in(d, l1);
    lemma_index_in(d, l2);
}

/// Blank nodes are all drawn as one node: whatever their identifiers, two blank
/// subjects get the same label and so the same node id.
pub proof fn law_blank_nodes_collapse(qs: Seq<Option<Quad>>, a: Quad, b: Quad)
    requires
        a.subject is Blank,
        b.subject is Blank,
    ensures
        label_spec(a.subject) == bnode_label(),
        label_spec(a.subject) == label_spec(b.subject),
        node_ref(discovered(qs), label_spec(a.subject)) == node_ref(
            discovered(qs),
            label_spec(b.subject),
        ),
{
}

/// A quad whose graph is the assertion graph is drawn in the assertion section
/// (when the head graph has another IRI, as head is matched first); one whose graph
/// is none of the four, or that has no graph, is drawn under other.
pub proof fn law_section_routing(q: Quad, ids: GraphIds)
    requires
        ids.head@ != ids.assertion@,
    ensures
        q.graph is Some && q.graph->Some_0@ == ids.assertion@ ==> section_spec(q.graph, ids)
            == Section::Assertion,
        (q.graph is None || ({
            let g = q.graph->Some_0@;
            g != ids.head@ && g != ids.assertion@ && g != ids.provenance@ && g != ids.pubinfo@
        })) ==> section_spec(q.graph, ids) == Section::Other,
{
}

pub open spec fn repeated(e: Option<Quad>, n: nat) -> Seq<Option<Quad>> {
    Seq::new(n, |i: int| e)
}

/// Repeating a quad changes neither the labels nor the node declarations of any
/// section; each copy adds one edge to the quad's section.
pub proof fn law_duplicates_keep_nodes(
    qs: Seq<Option<Quad>>,
    q: Quad,
    n: nat,
    v: Seq<Seq<char>>,
    ids: GraphIds,
    sec: Section,
)
    ensures
        discovered(qs.push(Some(q)) + repeated(Some(q), n)) == discovered(qs.push(Some(q))),
        decls(qs.push(Some(q)) + repeated(Some(q), n), v, ids, sec) == decls(
            qs.push(Some(q)),
            v,
            ids,
            sec,
        ),
        edges(qs.push(Some(q)) + repeated(Some(q), n), v, ids, sec).len() == edges(
            qs.push(Some(q)),
            v,
            ids,
            sec,
        ).len() + if section_spec(q.graph, ids) == sec {
            n as int
        } else {
            0
        },
    decreases n,
{
    let once = qs.push(Some(q));
    let many = once + repeated(Some(q), n);
    if n == 0 {
        assert(many =~= once);
    } else {
        law_duplicates_keep_nodes(qs, q, (n - 1) as nat, v, ids, sec);
        let fewer = once + repeated(Some(q), (n - 1) as nat);
        assert(many.drop_last() =~= fewer);
        assert(many.last() == Some(q));
        assert(once.drop_last() =~= qs);
        let dp = discovered(qs);
        let mid = crate::diagram::add_label(dp, label_spec(q.subject));
        lemma_add_label(dp, label_spec(q.subject));
        lemma_add_label(mid, label_spec(q.object));
        let d = discovered(once);
        let k = choose|k: int| 0 <= k < mid.len() && mid[k] == label_spec(q.subject);
        assert(d[k] == mid[k]);
        assert(d.contains(label_spec(q.subject)));
        if in_section(Some(q), ids, sec) {
            let s = decls(once, v, ids, sec);
            assert(s.contains(decl_line(v, label_spec(q.subject))));
            assert(s.contains(decl_line(v, label_spec(q.object))));
            assert(s.insert(decl_line(v, label_spec(q.subject))).insert(
                decl_line(v, label_spec(q.object)),
            ) =~= s);
        }
    }
}

/// A section into which no quad falls is left out of the diagram.
pub proof fn law_empty_section_omitted(qs: Seq<Option<Quad>>, v: Seq<Seq<char>>, ids: GraphIds, sec: Section)
    requires
        forall|i: int| 0 <= i < qs.len() ==> !in_section(#[trigger] qs[i], ids, sec),
    ensures
        decls(qs, v, ids, sec) == Set::<Seq<char>>::empty(),
        block(qs, v, ids, sec) == Seq::<char>::empty(),
    decreases qs.len(),
{
    if qs.len() > 0 {
        let p = qs.drop_last();
        assert forall|i: int| 0 <= i < p.len() implies !in_section(#[trigger] p[i], ids, sec) by {
            assert(p[i] == qs[i]);
        }
        law_empty_section_omitted(p, v, ids, sec);
        assert(!in_section(qs[qs.len() - 1], ids, sec));
    }
}

/// A literal of 65 characters (after trimming) is cut to its first 61 followed by
/// `...`; one of 64 is kept whole.
pub proof fn law_truncation_boundary(s: String)
    ensures
        trimmed(s@).len() == 65 ==> label_spec(Term::Literal(s)) == trimmed(s@).take(61)
            + ellipsis(),
        trimmed(s@).len() == 64 ==> label_spec(Term::Literal(s)) == trimmed(s@),
{
}

proof fn lemma_escaped_prefix(t: Seq<char>, m: int)
    requires
        0 <= m <= t.len(),
    ensures
        quotes_escaped(t.take(m)).is_prefix_of(quotes_escaped(t)),
    decreases t.len(),
{
    if m == t.len() {
        assert(t.take(m) =~= t);
        assert(quotes_escaped(t).is_prefix_of(quotes_escaped(t)));
    } else {
        lemma_escaped_prefix(t.drop_last(), m);
        assert(t.drop_last().take(m) =~= t.take(m));
        let a = quotes_escaped(t.take(m));
        let b = quotes_escaped(t.drop_last());
        assert(quotes_escaped(t) == b + crate::text::escaped_char(t.last()));
        assert(a =~= quotes_escaped(t).take(a.len() as int));
    }
}

/// A backslash followed by a double quote at position `j`.
pub open spec fn escaped_quote_at(r: Seq<char>, j: int) -> bool {
    0 <= j && j + 1 < r.len() && r[j] == '\\' && r[j + 1] == '"'
}

/// A double quote in a label comes out preceded by a backslash; a label that is
/// all whitespace comes out as `(empty)`, and so does a literal that is.
pub proof fn law_escaping(s: Seq<char>, k: int)
    ensures
        0 <= k < trimmed(s).len() && trimmed(s)[k] == '"' ==> exists|j: int|
            #[trigger] escaped_quote_at(escape_spec(s), j),
        trimmed(s).len() == 0 ==> escape_spec(s) == empty_mark() && literal_label(s)
            == empty_mark(),
{
    let t = trimmed(s);
    if 0 <= k < t.len() && t[k] == '"' {
        lemma_escaped_prefix(t, k + 1);
        let pre = t.take(k + 1);
        assert(pre.drop_last() =~= t.take(k));
        let e = quotes_escaped(pre);
        let j = quotes_escaped(t.take(k)).len() as int;
        assert(e[j] == '\\' && e[j + 1] == '"');
        assert(escape_spec(s)[j] == e[j]);
        assert(escape_spec(s)[j + 1] == e[j + 1]);
        assert(escaped_quote_at(escape_spec(s), j));
    }
}

} // verus!

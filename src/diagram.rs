use vstd::prelude::*;

use crate::model::{
    label_chars, label_spec, predicate_label_chars, predicate_label_spec, section_of, section_spec,
    GraphIds, Quad, Section,
};
use crate::text::{
    chars_equal, decimal, decimal_chars, escape_chars, escape_spec, lex_less, lex_lt,
    lemma_lex_total, lemma_lex_transitive, lemma_sorted_of, push_all,
    sorted_of, string_from_chars, strictly_sorted,
};

verus! {

/// The texts held by a vector of character vectors.
pub open spec fn views(v: Seq<Vec<char>>) -> Seq<Seq<char>> {
    v.map_values(|x: Vec<char>| x@)
}

pub open spec fn add_label(v: Seq<Seq<char>>, l: Seq<char>) -> Seq<Seq<char>> {
    if v.contains(l) {
        v
    } else {
        v.push(l)
    }
}

/// The distinct node labels in order of first appearance, subject before object,
/// quad by quad; unreadable quads (`None`) are skipped.
pub open spec fn discovered(qs: Seq<Option<Quad>>) -> Seq<Seq<char>>
    decreases qs.len(),
{
    if qs.len() == 0 {
        Seq::empty()
    } else {
        let prev = discovered(qs.drop_last());
        match qs.last() {
            Some(q) => add_label(add_label(prev, label_spec(q.subject)), label_spec(q.object)),
            None => prev,
        }
    }
}

/// Position of the last `l` in `v`, or -1.
pub open spec fn index_in(v: Seq<Seq<char>>, l: Seq<char>) -> int
    decreases v.len(),
{
    if v.len() == 0 {
        -1
    } else if v.last() == l {
        v.len() - 1
    } else {
        index_in(v.drop_last(), l)
    }
}

/// `N` followed by the label's position among the discovered labels.
pub open spec fn node_ref(v: Seq<Seq<char>>, l: Seq<char>) -> Seq<char> {
    seq!['N'] + decimal(index_in(v, l) as nat)
}

/// `N3["label"]`
pub open spec fn decl_line(v: Seq<Seq<char>>, l: Seq<char>) -> Seq<char> {
    node_ref(v, l) + seq!['[', '"'] + escape_spec(l) + seq!['"', ']']
}

pub open spec fn edge_open() -> Seq<char> {
    seq![' ', '-', '-', ' ']
}

pub open spec fn edge_close() -> Seq<char> {
    seq![' ', '-', '-', '>', ' ']
}

/// `N0 -- predicate --> N1`
pub open spec fn edge_line(v: Seq<Seq<char>>, q: Quad) -> Seq<char> {
    node_ref(v, label_spec(q.subject)) + edge_open() + escape_spec(predicate_label_spec(q.predicate))
        + edge_close() + node_ref(v, label_spec(q.object))
}

pub open spec fn in_section(e: Option<Quad>, ids: GraphIds, sec: Section) -> bool {
    match e {
        Some(q) => section_spec(q.graph, ids) == sec,
        None => false,
    }
}

/// The node declarations of a section: those of the subject and object of each of its quads.
pub open spec fn decls(qs: Seq<Option<Quad>>, v: Seq<Seq<char>>, ids: GraphIds, sec: Section) -> Set<
    Seq<char>,
>
    decreases qs.len(),
{
    if qs.len() == 0 {
        Set::empty()
    } else {
        let prev = decls(qs.drop_last(), v, ids, sec);
        if in_section(qs.last(), ids, sec) {
            let q = qs.last()->Some_0;
            prev.insert(decl_line(v, label_spec(q.subject))).insert(
                decl_line(v, label_spec(q.object)),
            )
        } else {
            prev
        }
    }
}

/// The edges of a section, one per quad, in dataset order.
pub open spec fn edges(qs: Seq<Option<Quad>>, v: Seq<Seq<char>>, ids: GraphIds, sec: Section) -> Seq<
    Seq<char>,
>
    decreases qs.len(),
{
    if qs.len() == 0 {
        Seq::empty()
    } else {
        let prev = edges(qs.drop_last(), v, ids, sec);
        if in_section(qs.last(), ids, sec) {
            prev.push(edge_line(v, qs.last()->Some_0))
        } else {
            prev
        }
    }
}

pub open spec fn indent() -> Seq<char> {
    seq![' ', ' ', ' ', ' ']
}

/// Each text on a line of its own, indented by four spaces.
pub open spec fn lines(v: Seq<Seq<char>>) -> Seq<char>
    decreases v.len(),
{
    if v.len() == 0 {
        Seq::empty()
    } else {
        lines(v.drop_last()) + indent() + v.last() + seq!['\n']
    }
}

pub open spec fn header() -> Seq<char> {
    seq!['g', 'r', 'a', 'p', 'h', ' ', 'L', 'R', '\n']
}

pub open spec fn subgraph_open(sec: Section) -> Seq<char> {
    seq![' ', ' ', 's', 'u', 'b', 'g', 'r', 'a', 'p', 'h', ' '] + sec.name_spec() + seq!['\n']
}

pub open spec fn subgraph_close() -> Seq<char> {
    seq![' ', ' ', 'e', 'n', 'd', '\n']
}

/// A section's subgraph: its sorted node declarations, then its edges; nothing
/// when no quad falls into it.
pub open spec fn block(qs: Seq<Option<Quad>>, v: Seq<Seq<char>>, ids: GraphIds, sec: Section) -> Seq<
    char,
> {
    let d = decls(qs, v, ids, sec);
    if d == Set::<Seq<char>>::empty() {
        Seq::empty()
    } else {
        subgraph_open(sec) + lines(sorted_of(d)) + lines(edges(qs, v, ids, sec))
            + subgraph_close()
    }
}

/// The whole diagram: the header, then the sections in their fixed order.
pub open spec fn diagram_spec(qs: Seq<Option<Quad>>, ids: GraphIds) -> Seq<char> {
    let v = discovered(qs);
    header() + block(qs, v, ids, Section::Head) + block(qs, v, ids, Section::Assertion) + block(
        qs,
        v,
        ids,
        Section::Provenance,
    ) + block(qs, v, ids, Section::Pubinfo) + block(qs, v, ids, Section::Other)
}

pub proof fn lemma_add_label(v: Seq<Seq<char>>, l: Seq<char>)
    ensures
        add_label(v, l).contains(l),
        v.is_prefix_of(add_label(v, l)),
        v.no_duplicates() ==> add_label(v, l).no_duplicates(),
{
    if !v.contains(l) {
        assert(v.push(l)[v.len() as int] == l);
        assert(v.is_prefix_of(v.push(l)));
    } else {
        assert(v.is_prefix_of(v));
    }
}

pub proof fn lemma_prefix_trans(a: Seq<Seq<char>>, b: Seq<Seq<char>>, c: Seq<Seq<char>>)
    requires
        a.is_prefix_of(b),
        b.is_prefix_of(c),
    ensures
        a.is_prefix_of(c),
{
    assert forall|i: int| 0 <= i < a.len() implies a[i] == c[i] by {
        assert(a[i] == b[i]);
    }
    assert(a =~= c.take(a.len() as int));
}

/// Labels once discovered keep their place, and none is discovered twice.
pub proof fn lemma_discovered_grows(qs: Seq<Option<Quad>>, j: int)
    requires
        0 <= j <= qs.len(),
    ensures
        discovered(qs.take(j)).is_prefix_of(discovered(qs)),
        discovered(qs).no_duplicates(),
    decreases qs.len(),
{
    if qs.len() == 0 {
        assert(qs.take(j) =~= qs);
        assert(discovered(qs).is_prefix_of(discovered(qs)));
    } else {
        let p = qs.drop_last();
        let d = discovered(qs);
        let dp = discovered(p);
        match qs.last() {
            Some(q) => {
                let mid = add_label(dp, label_spec(q.subject));
                lemma_add_label(dp, label_spec(q.subject));
                lemma_add_label(mid, label_spec(q.object));
                lemma_prefix_trans(dp, mid, d);
            },
            None => {
                assert(dp.is_prefix_of(d));
            },
        }
        if j == qs.len() {
            assert(qs.take(j) =~= qs);
            assert(d.is_prefix_of(d));
            lemma_discovered_grows(p, 0);
        } else {
            lemma_discovered_grows(p, j);
            assert(p.take(j) =~= qs.take(j));
            lemma_prefix_trans(discovered(qs.take(j)), dp, d);
        }
    }
}

/// Every readable quad's subject and object labels are discovered.
pub proof fn lemma_discovered_contains(qs: Seq<Option<Quad>>, i: int)
    requires
        0 <= i < qs.len(),
        qs[i] is Some,
    ensures
        discovered(qs).contains(label_spec(qs[i]->Some_0.subject)),
        discovered(qs).contains(label_spec(qs[i]->Some_0.object)),
{
    let q = qs[i]->Some_0;
    let t = qs.take(i + 1);
    assert(t.drop_last() =~= qs.take(i));
    assert(t.last() == qs[i]);
    let dp = discovered(qs.take(i));
    let mid = add_label(dp, label_spec(q.subject));
    lemma_add_label(dp, label_spec(q.subject));
    lemma_add_label(mid, label_spec(q.object));
    lemma_discovered_grows(qs, i + 1);
    let d = discovered(t);
    assert(mid.is_prefix_of(d));
    assert(d.contains(label_spec(q.object)));
    let k = choose|k: int| 0 <= k < mid.len() && mid[k] == label_spec(q.subject);
    assert(d[k] == mid[k]);
    let k2 = choose|k: int| 0 <= k < d.len() && d[k] == label_spec(q.object);
    assert(discovered(qs)[k] == d[k]);
    assert(discovered(qs)[k2] == d[k2]);
}

pub proof fn lemma_index_in(v: Seq<Seq<char>>, l: Seq<char>)
    requires
        v.contains(l),
    ensures
        0 <= index_in(v, l) < v.len(),
        v[index_in(v, l)] == l,
        v.no_duplicates() ==> forall|k: int| 0 <= k < v.len() && v[k] == l ==> k == index_in(v, l),
    decreases v.len(),
{
    if v.last() != l {
        let k = choose|k: int| 0 <= k < v.len() && v[k] == l;
        assert(v.drop_last()[k] == l);
        lemma_index_in(v.drop_last(), l);
    }
}


fn contains_label(labels: &Vec<Vec<char>>, l: &Vec<char>) -> (r: bool)
    ensures
        r == views(labels@).contains(l@),
{
    let mut i: usize = 0;
    while i < labels.len()
        invariant
            i <= labels.len(),
            forall|k: int| 0 <= k < i ==> views(labels@)[k] != l@,
        decreases labels.len() - i,
    {
        if chars_equal(&labels[i], l) {
            assert(views(labels@)[i as int] == l@);
            return true;
        }
        i += 1;
    }
    false
}

fn add_label_exec(labels: &mut Vec<Vec<char>>, l: Vec<char>)
    ensures
        views(final(labels)@) == add_label(views(old(labels)@), l@),
{
    if !contains_label(labels, &l) {
        let ghost before = views(labels@);
        labels.push(l);
        assert(views(labels@) =~= before.push(l@));
    }
}

/// The distinct labels of the dataset in order of first appearance.
pub fn discover_labels(quads: &Vec<Option<Quad>>) -> (r: Vec<Vec<char>>)
    ensures
        views(r@) == discovered(quads@),
{
    let mut labels: Vec<Vec<char>> = Vec::new();
    let mut i: usize = 0;
    assert(views(labels@) =~= discovered(quads@.take(0)));
    while i < quads.len()
        invariant
            i <= quads.len(),
            views(labels@) == discovered(quads@.take(i as int)),
        decreases quads.len() - i,
    {
        assert(quads@.take(i + 1).drop_last() =~= quads@.take(i as int));
        match &quads[i] {
            Some(q) => {
                add_label_exec(&mut labels, label_chars(&q.subject));
                add_label_exec(&mut labels, label_chars(&q.object));
            },
            None => {},
        }
        i += 1;
    }
    assert(quads@.take(quads.len() as int) =~= quads@);
    labels
}

/// Position of a discovered label.
fn find_label(labels: &Vec<Vec<char>>, l: &Vec<char>) -> (r: usize)
    requires
        views(labels@).contains(l@),
    ensures
        r as int == index_in(views(labels@), l@),
{
    let ghost v = views(labels@);
    let mut j: usize = labels.len();
    assert(v.take(j as int) =~= v);
    while j > 0 && !chars_equal(&labels[j - 1], l)
        invariant
            j <= labels.len(),
            v == views(labels@),
            index_in(v, l@) == index_in(v.take(j as int), l@),
        decreases j,
    {
        assert(v.take(j as int).drop_last() =~= v.take(j - 1));
        j -= 1;
    }
    proof {
        if j == 0 {
            lemma_index_in(v, l@);
            assert(v.take(0).len() == 0);
        }
    }
    j - 1
}

fn node_ref_chars(labels: &Vec<Vec<char>>, l: &Vec<char>) -> (r: Vec<char>)
    requires
        views(labels@).contains(l@),
    ensures
        r@ == node_ref(views(labels@), l@),
{
    let k = find_label(labels, l);
    let mut r = vec!['N'];
    push_all(&mut r, &decimal_chars(k));
    r
}

fn decl_line_chars(labels: &Vec<Vec<char>>, l: &Vec<char>) -> (r: Vec<char>)
    requires
        views(labels@).contains(l@),
    ensures
        r@ == decl_line(views(labels@), l@),
{
    let mut r = node_ref_chars(labels, l);
    r.push('[');
    r.push('"');
    push_all(&mut r, &escape_chars(l));
    r.push('"');
    r.push(']');
    assert(r@ =~= decl_line(views(labels@), l@));
    r
}

fn edge_line_chars(labels: &Vec<Vec<char>>, q: &Quad) -> (r: Vec<char>)
    requires
        views(labels@).contains(label_spec(q.subject)),
        views(labels@).contains(label_spec(q.object)),
    ensures
        r@ == edge_line(views(labels@), *q),
{
    let mut r = node_ref_chars(labels, &label_chars(&q.subject));
    let open = vec![' ', '-', '-', ' '];
    let close = vec![' ', '-', '-', '>', ' '];
    assert(open@ =~= edge_open());
    assert(close@ =~= edge_close());
    push_all(&mut r, &open);
    push_all(&mut r, &escape_chars(&predicate_label_chars(&q.predicate)));
    push_all(&mut r, &close);
    push_all(&mut r, &node_ref_chars(labels, &label_chars(&q.object)));
    r
}

/// Adds `x` to a strictly sorted list of texts, keeping it strictly sorted.
pub fn insert_sorted(nodes: &mut Vec<Vec<char>>, x: Vec<char>)
    requires
        strictly_sorted(views(old(nodes)@)),
    ensures
        strictly_sorted(views(final(nodes)@)),
        views(final(nodes)@).to_set() == views(old(nodes)@).to_set().insert(x@),
{
    let ghost v = views(nodes@);
    let mut p: usize = 0;
    while p < nodes.len() && lex_less(&nodes[p], &x)
        invariant
            p <= nodes.len(),
            v == views(nodes@),
            forall|k: int| 0 <= k < p ==> lex_lt(#[trigger] v[k], x@),
        decreases nodes.len() - p,
    {
        p += 1;
    }
    if p < nodes.len() && chars_equal(&nodes[p], &x) {
        assert(v.to_set().insert(x@) =~= v.to_set()) by {
            assert(v[p as int] == x@);
        }
        return;
    }
    proof {
        if p < v.len() {
            lemma_lex_total(v[p as int], x@);
        }
    }
    nodes.insert(p, x);
    let ghost w = views(nodes@);
    assert(w =~= v.insert(p as int, x@));
    assert forall|i: int, j: int| 0 <= i < j < w.len() implies lex_lt(#[trigger] w[i], #[trigger] w[j]) by {
        if j == p {
        } else if i == p {
            assert(w[j] == v[j - 1]);
            if j - 1 > p {
                lemma_lex_transitive(x@, v[p as int], v[j - 1]);
            }
        } else if i < p && j > p {
            assert(w[j] == v[j - 1]);
            if j - 1 > i {
                assert(lex_lt(v[i], v[j - 1]));
            }
        } else if i > p {
            assert(w[i] == v[i - 1] && w[j] == v[j - 1]);
        }
    }
    assert(w.to_set() =~= v.to_set().insert(x@)) by {
        assert forall|y: Seq<char>| v.to_set().insert(x@).contains(y) implies w.to_set().contains(y) by {
            if y == x@ {
                assert(w[p as int] == y);
            } else {
                let k = choose|k: int| 0 <= k < v.len() && v[k] == y;
                if k < p {
                    assert(w[k] == y);
                } else {
                    assert(w[k + 1] == y);
                }
            }
        }
        assert forall|y: Seq<char>| w.to_set().contains(y) implies v.to_set().insert(x@).contains(y) by {
            let k = choose|k: int| 0 <= k < w.len() && w[k] == y;
            if k < p {
                assert(v[k] == y);
            } else if k > p {
                assert(v[k - 1] == y);
            }
        }
    }
}

/// The node declarations and edges of one section.
pub struct SectionLines {
    /// Declarations, sorted and without repeats.
    pub nodes: Vec<Vec<char>>,
    /// Edges, in dataset order.
    pub edges: Vec<Vec<char>>,
}

/// Collects one section's lines, given the labels discovered over the whole dataset.
pub fn collect_section(
    quads: &Vec<Option<Quad>>,
    ids: &GraphIds,
    labels: &Vec<Vec<char>>,
    sec: Section,
) -> (r: SectionLines)
    requires
        views(labels@) == discovered(quads@),
    ensures
        strictly_sorted(views(r.nodes@)),
        views(r.nodes@).to_set() == decls(quads@, views(labels@), *ids, sec),
        views(r.edges@) == edges(quads@, views(labels@), *ids, sec),
{
    let ghost v = views(labels@);
    let mut nodes: Vec<Vec<char>> = Vec::new();
    let mut es: Vec<Vec<char>> = Vec::new();
    let mut i: usize = 0;
    assert(views(nodes@).to_set() =~= decls(quads@.take(0), v, *ids, sec));
    assert(views(es@) =~= edges(quads@.take(0), v, *ids, sec));
    while i < quads.len()
        invariant
            i <= quads.len(),
            v == views(labels@),
            v == discovered(quads@),
            strictly_sorted(views(nodes@)),
            views(nodes@).to_set() == decls(quads@.take(i as int), v, *ids, sec),
            views(es@) == edges(quads@.take(i as int), v, *ids, sec),
        decreases quads.len() - i,
    {
        let ghost t = quads@.take(i + 1);
        assert(t.drop_last() =~= quads@.take(i as int));
        assert(t.last() == quads@[i as int]);
        match &quads[i] {
            Some(q) => {
                if section_of(&q.graph, ids) == sec {
                    proof {
                        lemma_discovered_contains(quads@, i as int);
                    }
                    let sl = label_chars(&q.subject);
                    let ol = label_chars(&q.object);
                    insert_sorted(&mut nodes, decl_line_chars(labels, &sl));
                    insert_sorted(&mut nodes, decl_line_chars(labels, &ol));
                    let ghost before = views(es@);
                    es.push(edge_line_chars(labels, q));
                    assert(views(es@) =~= before.push(edge_line(v, *q)));
                }
            },
            None => {},
        }
        i += 1;
    }
    assert(quads@.take(quads.len() as int) =~= quads@);
    SectionLines { nodes, edges: es }
}

/// Appends each text on a line of its own, indented by four spaces.
fn push_lines(out: &mut Vec<char>, v: &Vec<Vec<char>>)
    ensures
        final(out)@ == old(out)@ + lines(views(v@)),
{
    let mut i: usize = 0;
    assert(views(v@).take(0) =~= Seq::<Seq<char>>::empty());
    while i < v.len()
        invariant
            i <= v.len(),
            out@ == old(out)@ + lines(views(v@).take(i as int)),
        decreases v.len() - i,
    {
        let ghost w = views(v@).take(i + 1);
        assert(w.drop_last() =~= views(v@).take(i as int));
        push_all(out, &vec![' ', ' ', ' ', ' ']);
        push_all(out, &v[i]);
        out.push('\n');
        i += 1;
        assert(out@ =~= old(out)@ + lines(views(v@).take(i as int)));
    }
    assert(views(v@).take(v.len() as int) =~= views(v@));
}

fn push_block(
    out: &mut Vec<char>,
    quads: &Vec<Option<Quad>>,
    ids: &GraphIds,
    labels: &Vec<Vec<char>>,
    sec: Section,
)
    requires
        views(labels@) == discovered(quads@),
    ensures
        final(out)@ == old(out)@ + block(quads@, views(labels@), *ids, sec),
{
    let ghost v = views(labels@);
    let lines_of = collect_section(quads, ids, labels, sec);
    let ghost d = decls(quads@, v, *ids, sec);
    if lines_of.nodes.len() == 0 {
        assert(d =~= Set::<Seq<char>>::empty()) by {
            assert(views(lines_of.nodes@) =~= Seq::<Seq<char>>::empty());
        }
        assert(out@ =~= old(out)@ + Seq::<char>::empty());
        return;
    }
    assert(d.contains(views(lines_of.nodes@)[0]));
    proof {
        lemma_sorted_of(views(lines_of.nodes@));
    }
    let open = vec![' ', ' ', 's', 'u', 'b', 'g', 'r', 'a', 'p', 'h', ' '];
    push_all(out, &open);
    push_all(out, &sec.name_chars());
    out.push('\n');
    assert(out@ =~= old(out)@ + subgraph_open(sec));
    push_lines(out, &lines_of.nodes);
    push_lines(out, &lines_of.edges);
    let close = vec![' ', ' ', 'e', 'n', 'd', '\n'];
    push_all(out, &close);
    assert(out@ =~= old(out)@ + block(quads@, v, *ids, sec));
}

/// Renders the dataset of a nanopublication as a Mermaid flowchart: labelled nodes,
/// one subgraph per section in the order head, assertion, provenance, pubinfo,
/// other, sections without quads left out.
pub fn mermaid_from_nanopub(quads: &Vec<Option<Quad>>, ids: &GraphIds) -> (r: String)
    ensures
        r@ == diagram_spec(quads@, *ids),
{
    let labels = discover_labels(quads);
    let mut out = vec!['g', 'r', 'a', 'p', 'h', ' ', 'L', 'R', '\n'];
    assert(out@ =~= header());
    push_block(&mut out, quads, ids, &labels, Section::Head);
    push_block(&mut out, quads, ids, &labels, Section::Assertion);
    push_block(&mut out, quads, ids, &labels, Section::Provenance);
    push_block(&mut out, quads, ids, &labels, Section::Pubinfo);
    push_block(&mut out, quads, ids, &labels, Section::Other);
    assert(out@ =~= diagram_spec(quads@, *ids));
    string_from_chars(&out)
}

} // verus!

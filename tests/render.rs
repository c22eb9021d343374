use nanopub_mermaid::diagram::mermaid_from_nanopub;
use nanopub_mermaid::model::{
    compact_iri, escape_mermaid, pred_label, section_of, term_label, GraphIds, Quad, Section, Term,
};

const HEAD: &str = "http://example.org/np/Head";
const ASSERTION: &str = "http://example.org/np/assertion";
const PROV: &str = "http://example.org/np#provenance";
const PUBINFO: &str = "http://example.org/np#pubinfo";

fn ids() -> GraphIds {
    GraphIds {
        head: HEAD.to_string(),
        assertion: ASSERTION.to_string(),
        provenance: PROV.to_string(),
        pubinfo: PUBINFO.to_string(),
    }
}

fn iri(s: &str) -> Term {
    Term::Iri(s.to_string())
}

fn lit(s: &str) -> Term {
    Term::Literal(s.to_string())
}

fn quad(s: Term, p: &str, o: Term, g: Option<&str>) -> Option<Quad> {
    Some(Quad { subject: s, predicate: iri(p), object: o, graph: g.map(|x| x.to_string()) })
}

fn node_lines(out: &str) -> Vec<String> {
    let mut v: Vec<String> =
        out.lines().filter(|l| l.contains("[\"")).map(|l| l.to_string()).collect();
    v.sort();
    v
}

#[test]
fn end_to_end_single_assertion_quad() {
    let qs = vec![quad(
        iri("http://example.org/s"),
        "http://example.org/p",
        lit("hello"),
        Some(ASSERTION),
    )];
    let out = mermaid_from_nanopub(&qs, &ids());
    assert_eq!(
        out,
        "graph LR\n  subgraph assertion\n    N0[\"s\"]\n    N1[\"hello\"]\n    N0 -- p --> N1\n  end\n"
    );
}

#[test]
fn empty_dataset_gives_header_only() {
    assert_eq!(mermaid_from_nanopub(&vec![], &ids()), "graph LR\n");
}

#[test]
fn unreadable_quads_are_skipped() {
    let qs = vec![None, quad(iri("http://x.org/a"), "http://x.org/b", iri("http://x.org/c"), None), None];
    let out = mermaid_from_nanopub(&qs, &ids());
    assert_eq!(
        out,
        "graph LR\n  subgraph other\n    N0[\"a\"]\n    N1[\"c\"]\n    N0 -- b --> N1\n  end\n"
    );
}

#[test]
fn sections_in_fixed_order_and_empty_ones_omitted() {
    let qs = vec![
        quad(iri("http://x.org/o1"), "http://x.org/p", lit("x"), None),
        quad(iri("http://x.org/a1"), "http://x.org/p", lit("y"), Some(ASSERTION)),
        quad(iri("http://x.org/h1"), "http://x.org/p", lit("z"), Some(HEAD)),
    ];
    let out = mermaid_from_nanopub(&qs, &ids());
    assert_eq!(
        out,
        "graph LR\n  subgraph head\n    N4[\"h1\"]\n    N5[\"z\"]\n    N4 -- p --> N5\n  end\n  subgraph assertion\n    N2[\"a1\"]\n    N3[\"y\"]\n    N2 -- p --> N3\n  end\n  subgraph other\n    N0[\"o1\"]\n    N1[\"x\"]\n    N0 -- p --> N1\n  end\n"
    );
    assert!(!out.contains("subgraph pubinfo"));
    assert!(!out.contains("subgraph provenance"));
}

#[test]
fn node_declarations_sorted_and_ids_reused() {
    let qs = vec![
        quad(iri("http://x.org/b"), "http://x.org/p", iri("http://x.org/a"), Some(PROV)),
        quad(iri("http://x.org/a"), "http://x.org/q", iri("http://x.org/b"), Some(PROV)),
    ];
    let out = mermaid_from_nanopub(&qs, &ids());
    assert_eq!(
        out,
        "graph LR\n  subgraph provenance\n    N0[\"b\"]\n    N1[\"a\"]\n    N0 -- p --> N1\n    N1 -- q --> N0\n  end\n"
    );
}

#[test]
fn ids_beyond_nine_sort_as_text() {
    let mut qs = Vec::new();
    for i in 0..6 {
        qs.push(quad(
            iri(&format!("http://x.org/s{i}")),
            "http://x.org/p",
            lit(&format!("v{i}")),
            Some(PUBINFO),
        ));
    }
    let out = mermaid_from_nanopub(&qs, &ids());
    let lines: Vec<&str> = out.lines().collect();
    assert_eq!(lines[1], "  subgraph pubinfo");
    assert_eq!(lines[2], "    N0[\"s0\"]");
    assert_eq!(lines[3], "    N10[\"s5\"]");
    assert_eq!(lines[4], "    N11[\"v5\"]");
    assert_eq!(lines[5], "    N1[\"v0\"]");
    assert_eq!(lines[14], "    N0 -- p --> N1");
    assert_eq!(lines[19], "    N10 -- p --> N11");
}

#[test]
fn rendering_twice_gives_the_same_ids() {
    let qs = vec![
        quad(iri("http://x.org/a"), "http://x.org/p", lit("one"), Some(ASSERTION)),
        quad(lit("one"), "http://x.org/p", iri("http://x.org/z"), Some(HEAD)),
    ];
    let a = mermaid_from_nanopub(&qs, &ids());
    let b = mermaid_from_nanopub(&qs, &ids());
    assert_eq!(a, b);
    assert!(a.contains("N1[\"one\"]"));
    assert!(a.contains("N1 -- p --> N2"));
}

#[test]
fn distinct_blank_nodes_share_one_node() {
    let qs = vec![
        quad(Term::Blank("b1".to_string()), "http://x.org/p", lit("x"), Some(ASSERTION)),
        quad(Term::Blank("b2".to_string()), "http://x.org/p", lit("y"), Some(ASSERTION)),
    ];
    let out = mermaid_from_nanopub(&qs, &ids());
    assert_eq!(
        out,
        "graph LR\n  subgraph assertion\n    N0[\"_:bnode\"]\n    N1[\"x\"]\n    N2[\"y\"]\n    N0 -- p --> N1\n    N0 -- p --> N2\n  end\n"
    );
}

#[test]
fn duplicate_quads_keep_nodes_but_repeat_edges() {
    let q = quad(iri("http://x.org/a"), "http://x.org/p", lit("v"), Some(ASSERTION));
    let once = mermaid_from_nanopub(&vec![q.clone()], &ids());
    let thrice = mermaid_from_nanopub(&vec![q.clone(), q.clone(), q], &ids());
    assert_eq!(node_lines(&once), node_lines(&thrice));
    assert_eq!(once.matches(" --> ").count(), 1);
    assert_eq!(thrice.matches(" --> ").count(), 3);
}

#[test]
fn section_routing_by_graph_iri() {
    let ids = ids();
    assert_eq!(section_of(&Some(ASSERTION.to_string()), &ids), Section::Assertion);
    assert_eq!(section_of(&Some(HEAD.to_string()), &ids), Section::Head);
    assert_eq!(section_of(&Some(PROV.to_string()), &ids), Section::Provenance);
    assert_eq!(section_of(&Some(PUBINFO.to_string()), &ids), Section::Pubinfo);
    assert_eq!(section_of(&Some("http://example.org/np/other".to_string()), &ids), Section::Other);
    assert_eq!(section_of(&None, &ids), Section::Other);
    assert_eq!(section_of(&Some(ASSERTION.to_uppercase()), &ids), Section::Other);
}

#[test]
fn head_wins_when_graph_ids_coincide() {
    let mut ids = ids();
    ids.assertion = HEAD.to_string();
    assert_eq!(section_of(&Some(HEAD.to_string()), &ids), Section::Head);
}

#[test]
fn section_names() {
    assert_eq!(Section::Head.name(), "head");
    assert_eq!(Section::Assertion.name(), "assertion");
    assert_eq!(Section::Provenance.name(), "provenance");
    assert_eq!(Section::Pubinfo.name(), "pubinfo");
    assert_eq!(Section::Other.name(), "other");
}

#[test]
fn literal_of_65_chars_is_truncated() {
    let s: String = "abcdefghij".repeat(6) + "klmno";
    assert_eq!(s.chars().count(), 65);
    let label = term_label(&Term::Literal(s.clone()));
    assert_eq!(label, format!("{}...", &s[..61]));
    assert_eq!(label.chars().count(), 64);
}

#[test]
fn literal_of_64_chars_is_kept() {
    let s: String = "abcdefghij".repeat(6) + "klmn";
    assert_eq!(term_label(&Term::Literal(s.clone())), s);
    assert_eq!(term_label(&Term::Literal(format!("  {s}\n"))), s);
}

#[test]
fn truncation_counts_characters() {
    let s: String = "é".repeat(65);
    assert_eq!(term_label(&Term::Literal(s)), "é".repeat(61) + "...");
}

#[test]
fn literal_labels_are_trimmed() {
    assert_eq!(term_label(&lit("  hi there \t")), "hi there");
    assert_eq!(term_label(&lit("   \n\t")), "(empty)");
    assert_eq!(term_label(&lit("")), "(empty)");
    assert_eq!(term_label(&lit("\u{3000}x\u{a0}")), "x");
}

#[test]
fn iri_and_blank_labels() {
    assert_eq!(term_label(&iri("http://x.org/ns#Thing")), "Thing");
    assert_eq!(term_label(&iri("http://x.org/path/leaf")), "leaf");
    assert_eq!(term_label(&Term::Blank("xyz".to_string())), "_:bnode");
}

#[test]
fn compact_iri_rules() {
    assert_eq!(compact_iri("http://a.org/x#y/z"), "y/z");
    assert_eq!(compact_iri("http://a.org/x/y"), "y");
    assert_eq!(compact_iri("urn:plain"), "urn:plain");
    assert_eq!(compact_iri("http://a.org/"), "");
    assert_eq!(compact_iri(""), "");
    assert_eq!(pred_label("http://www.w3.org/1999/02/22-rdf-syntax-ns#type"), "type");
}

#[test]
fn escaping_quotes_and_blanks() {
    assert_eq!(escape_mermaid("say \"hi\""), "say \\\"hi\\\"");
    assert_eq!(escape_mermaid("  padded  "), "padded");
    assert_eq!(escape_mermaid("   "), "(empty)");
    assert_eq!(escape_mermaid(""), "(empty)");
}

#[test]
fn quote_in_literal_is_escaped_in_declaration() {
    let qs = vec![quad(iri("http://x.org/a"), "http://x.org/p", lit("a \"b\""), None)];
    let out = mermaid_from_nanopub(&qs, &ids());
    assert!(out.contains("N1[\"a \\\"b\\\"\"]"));
}

#[test]
fn whitespace_literal_renders_as_empty() {
    let qs = vec![quad(iri("http://x.org/a"), "http://x.org/p", lit("   "), None)];
    let out = mermaid_from_nanopub(&qs, &ids());
    assert!(out.contains("N1[\"(empty)\"]"));
}

#[test]
fn predicate_that_is_no_iri_renders_as_empty() {
    let qs = vec![Some(Quad {
        subject: iri("http://x.org/a"),
        predicate: lit("odd"),
        object: iri("http://x.org/b"),
        graph: None,
    })];
    let out = mermaid_from_nanopub(&qs, &ids());
    assert!(out.contains("    N0 -- (empty) --> N1\n"));
}

use nanopub_mermaid::options::{
    inputs_or_example, is_uri, options_from_args, output_file_name, EXAMPLE_INPUT,
};

#[test]
fn uri_detection() {
    assert!(is_uri("http://example.org/np"));
    assert!(is_uri("https://w3id.org/np/RA123"));
    assert!(!is_uri("np.trig"));
    assert!(!is_uri("ftp://example.org"));
    assert!(!is_uri("http:/x"));
    assert!(!is_uri(""));
}

#[test]
fn mermaid_flag_first() {
    let o = options_from_args(vec!["--mermaid".to_string(), "a.trig".to_string()]);
    assert!(o.mermaid);
    assert_eq!(o.inputs, vec!["a.trig".to_string()]);
}

#[test]
fn mermaid_flag_elsewhere_is_an_input() {
    let o = options_from_args(vec!["a.trig".to_string(), "--mermaid".to_string()]);
    assert!(!o.mermaid);
    assert_eq!(o.inputs.len(), 2);
    let e = options_from_args(vec![]);
    assert!(!e.mermaid);
    assert!(e.inputs.is_empty());
}

#[test]
fn example_input_when_none_given() {
    assert_eq!(inputs_or_example(vec![]), vec![EXAMPLE_INPUT.to_string()]);
    assert_eq!(inputs_or_example(vec!["x".to_string()]), vec!["x".to_string()]);
}

#[test]
fn output_file_names() {
    assert_eq!(output_file_name(0), "np_0.mmd");
    assert_eq!(output_file_name(12), "np_12.mmd");
    assert_eq!(output_file_name(305), "np_305.mmd");
}

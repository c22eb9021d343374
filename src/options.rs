use vstd::prelude::*;

use crate::text::{chars_equal, chars_of, decimal, decimal_chars, push_all, string_from_chars};

verus! {

/// What the command line asks for: a diagram or a check, and the inputs.
pub struct Options {
    pub mermaid: bool,
    pub inputs: Vec<String>,
}

/// The nanopublication used when no input is given.
pub const EXAMPLE_INPUT: &'static str = "https://w3id.org/np/RATGmPlZuuhgKAcqSICT4Qg_J9z5N9rVQbdGt4hJ7yMJM";

pub open spec fn http_prefix() -> Seq<char> {
    seq!['h', 't', 't', 'p', ':', '/', '/']
}

pub open spec fn https_prefix() -> Seq<char> {
    seq!['h', 't', 't', 'p', 's', ':', '/', '/']
}

pub open spec fn starts_with(s: Seq<char>, p: Seq<char>) -> bool {
    p.len() <= s.len() && s.take(p.len() as int) == p
}

pub open spec fn mermaid_flag() -> Seq<char> {
    seq!['-', '-', 'm', 'e', 'r', 'm', 'a', 'i', 'd']
}

fn has_prefix(s: &Vec<char>, p: &Vec<char>) -> (r: bool)
    ensures
        r == starts_with(s@, p@),
{
    if p.len() > s.len() {
        return false;
    }
    let mut i: usize = 0;
    while i < p.len()
        invariant
            p.len() <= s.len(),
            i <= p.len(),
            forall|k: int| 0 <= k < i ==> s@[k] == p@[k],
        decreases p.len() - i,
    {
        if s[i] != p[i] {
            assert(s@.take(p.len() as int)[i as int] != p@[i as int]);
            return false;
        }
        i += 1;
    }
    assert(s@.take(p.len() as int) =~= p@);
    true
}

/// Whether the input names a nanopublication to fetch (an `http://` or `https://`
/// URI) rather than a file to read.
pub fn is_uri(input: &str) -> (r: bool)
    ensures
        r == (starts_with(input@, http_prefix()) || starts_with(input@, https_prefix())),
{
    let s = chars_of(input);
    let http = vec!['h', 't', 't', 'p', ':', '/', '/'];
    let https = vec!['h', 't', 't', 'p', 's', ':', '/', '/'];
    assert(http@ =~= http_prefix());
    assert(https@ =~= https_prefix());
    has_prefix(&s, &http) || has_prefix(&s, &https)
}

/// Reads the arguments after the program name: a leading `--mermaid` asks for
/// diagrams, and the rest are the inputs.
pub fn options_from_args(args: Vec<String>) -> (r: Options)
    ensures
        args@.len() > 0 && args@[0]@ == mermaid_flag() ==> r.mermaid && r.inputs@
            == args@.drop_first(),
        !(args@.len() > 0 && args@[0]@ == mermaid_flag()) ==> !r.mermaid && r.inputs@ == args@,
{
    let mut args = args;
    let flag = vec!['-', '-', 'm', 'e', 'r', 'm', 'a', 'i', 'd'];
    assert(flag@ =~= mermaid_flag());
    if args.len() > 0 && chars_equal(&chars_of(args[0].as_str()), &flag) {
        let ghost before = args@;
        args.remove(0);
        assert(args@ =~= before.drop_first());
        Options { mermaid: true, inputs: args }
    } else {
        Options { mermaid: false, inputs: args }
    }
}

/// The inputs to work on: those given, or the example nanopublication when none is.
pub fn inputs_or_example(inputs: Vec<String>) -> (r: Vec<String>)
    ensures
        inputs@.len() > 0 ==> r@ == inputs@,
        inputs@.len() == 0 ==> r@.len() == 1 && r@[0]@ == EXAMPLE_INPUT@,
{
    let mut inputs = inputs;
    if inputs.len() == 0 {
        inputs.push(EXAMPLE_INPUT.to_string());
    }
    inputs
}

pub open spec fn file_name_spec(idx: nat) -> Seq<char> {
    seq!['n', 'p', '_'] + decimal(idx) + seq!['.', 'm', 'm', 'd']
}

/// The file that the diagram of the input at position `idx` is written to when
/// there are several inputs: `np_<idx>.mmd`.
pub fn output_file_name(idx: usize) -> (r: String)
    ensures
        r@ == file_name_spec(idx as nat),
{
    let mut r = vec!['n', 'p', '_'];
    push_all(&mut r, &decimal_chars(idx));
    push_all(&mut r, &vec!['.', 'm', 'm', 'd']);
    assert(r@ =~= file_name_spec(idx as nat));
    string_from_chars(&r)
}

} // verus!

//! Escaping helpers for dependency-diagram output: node identifiers and
//! the quoting that diagram source text and embedded HTML labels need.

use vstd::prelude::*;
use vstd::string::StrSliceExecFns;

use crate::report::ReportIssue;
use crate::report_data::{spec_id_of, spec_ident_string, IssueID};
use crate::text::{chars_to_string, expand_chars, lemma_expand_chars_snoc};

verus! {

/// The dependency-diagram renderer.
#[derive(Clone, Copy, Debug)]
pub struct DependencyGraph;

/// What one character contributes under string-literal quoting.
pub open spec fn double_escape_char(c: char) -> Seq<char> {
    if c == '\\' {
        seq!['\\', '\\']
    } else if c == '"' {
        seq!['\\', '"']
    } else {
        seq![c]
    }
}

/// What one character contributes under HTML-label escaping.
pub open spec fn html_escape_char(c: char) -> Seq<char> {
    if c == '&' {
        seq!['&', 'a', 'm', 'p', ';']
    } else if c == '<' {
        seq!['&', 'l', 't', ';']
    } else if c == '>' {
        seq!['&', 'g', 't', ';']
    } else {
        seq![c]
    }
}

impl DependencyGraph {
    /// The diagram-node identifier of an issue: its stable identity
    /// rendering.
    pub fn issue_id(issue: &ReportIssue) -> (r: String)
        ensures
            r@ == spec_ident_string(spec_id_of(issue@)),
    {
        IssueID::of_issue(issue).as_string()
    }

    /// Escapes text for a quoted string literal in diagram source.
    pub fn double_string_escape(s: &str) -> (r: String)
        ensures
            r@ == expand_chars(s@, |c: char| double_escape_char(c)),
    {
        let ghost f = |c: char| double_escape_char(c);
        let n = s.unicode_len();
        let mut out: Vec<char> = Vec::new();
        proof {
            assert(s@.take(0) =~= Seq::<char>::empty());
            assert(out@ =~= expand_chars(s@.take(0), f));
        }
        let mut i: usize = 0;
        while i < n
            invariant
                n == s@.len(),
                i <= n,
                out@ == expand_chars(s@.take(i as int), f),
                f == (|c: char| double_escape_char(c)),
            decreases n - i,
        {
            let c = s.get_char(i);
            proof {
                lemma_expand_chars_snoc(s@.take(i as int), f, c);
                assert(s@.take(i as int).push(c) =~= s@.take(i as int + 1));
            }
            if c == '\\' {
                out.push('\\');
                out.push('\\');
            } else if c == '"' {
                out.push('\\');
                out.push('"');
            } else {
                out.push(c);
            }
            proof {
                assert(out@ =~= expand_chars(s@.take(i as int + 1), f));
            }
            i += 1;
        }
        proof {
            assert(s@.take(n as int) =~= s@);
        }
        chars_to_string(&out)
    }

    /// Escapes text for an HTML label in diagram source.
    pub fn html_string_escape(s: &str) -> (r: String)
        ensures
            r@ == expand_chars(s@, |c: char| html_escape_char(c)),
    {
        let ghost f = |c: char| html_escape_char(c);
        let n = s.unicode_len();
        let mut out: Vec<char> = Vec::new();
        proof {
            assert(s@.take(0) =~= Seq::<char>::empty());
            assert(out@ =~= expand_chars(s@.take(0), f));
        }
        let mut i: usize = 0;
        while i < n
            invariant
                n == s@.len(),
                i <= n,
                out@ == expand_chars(s@.take(i as int), f),
                f == (|c: char| html_escape_char(c)),
            decreases n - i,
        {
            let c = s.get_char(i);
            proof {
                lemma_expand_chars_snoc(s@.take(i as int), f, c);
                assert(s@.take(i as int).push(c) =~= s@.take(i as int + 1));
            }
            if c == '&' {
                out.push('&');
                out.push('a');
                out.push('m');
                out.push('p');
                out.push(';');
            } else if c == '<' {
                out.push('&');
                out.push('l');
                out.push('t');
                out.push(';');
            } else if c == '>' {
                out.push('&');
                out.push('g');
                out.push('t');
                out.push(';');
            } else {
                out.push(c);
            }
            proof {
                assert(out@ =~= expand_chars(s@.take(i as int + 1), f));
            }
            i += 1;
        }
        proof {
            assert(s@.take(n as int) =~= s@);
        }
        chars_to_string(&out)
    }
}

} // verus!

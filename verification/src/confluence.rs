//! Escaping of free text for wiki markup: surrounding whitespace is
//! dropped, carriage returns and braces are removed, and line breaks become
//! wiki line-break markup.

use vstd::prelude::*;
use vstd::string::StrSliceExecFns;

use crate::authentication::Access;
use crate::text::{chars_to_string, expand_chars, lemma_expand_chars_snoc};

verus! {

/// One configured wiki endpoint with its credentials. The HTTP calls
/// against it live in the process layer.
#[derive(Debug)]
pub struct ConfluenceServer {
    pub base_url: String,
    pub access: Access,
}

impl Clone for ConfluenceServer {
    fn clone(&self) -> (r: Self)
        ensures
            r.base_url@ == self.base_url@,
            r.access@ == self.access@,
    {
        ConfluenceServer { base_url: self.base_url.clone(), access: self.access.clone() }
    }
}

/// The characters Rust's `char::is_whitespace` recognizes: the Unicode
/// `White_Space` property.
pub open spec fn is_white(c: char) -> bool {
    c == '\u{0009}' || c == '\u{000A}' || c == '\u{000B}' || c == '\u{000C}' || c == '\u{000D}'
        || c == '\u{0020}' || c == '\u{0085}' || c == '\u{00A0}' || c == '\u{1680}' || c
        == '\u{2000}' || c == '\u{2001}' || c == '\u{2002}' || c == '\u{2003}' || c == '\u{2004}'
        || c == '\u{2005}' || c == '\u{2006}' || c == '\u{2007}' || c == '\u{2008}' || c
        == '\u{2009}' || c == '\u{200A}' || c == '\u{2028}' || c == '\u{2029}' || c == '\u{202F}'
        || c == '\u{205F}' || c == '\u{3000}'
}

/// Whether the character has the Unicode `White_Space` property.
pub fn char_is_white(c: char) -> (b: bool)
    ensures
        b == is_white(c),
{
    c == '\u{0009}' || c == '\u{000A}' || c == '\u{000B}' || c == '\u{000C}' || c == '\u{000D}'
        || c == '\u{0020}' || c == '\u{0085}' || c == '\u{00A0}' || c == '\u{1680}' || c
        == '\u{2000}' || c == '\u{2001}' || c == '\u{2002}' || c == '\u{2003}' || c == '\u{2004}'
        || c == '\u{2005}' || c == '\u{2006}' || c == '\u{2007}' || c == '\u{2008}' || c
        == '\u{2009}' || c == '\u{200A}' || c == '\u{2028}' || c == '\u{2029}' || c == '\u{202F}'
        || c == '\u{205F}' || c == '\u{3000}'
}

/// The text with leading whitespace dropped.
pub open spec fn spec_trim_start(s: Seq<char>) -> Seq<char>
    decreases s.len(),
{
    if s.len() > 0 && is_white(s[0]) {
        spec_trim_start(s.drop_first())
    } else {
        s
    }
}

/// The text with trailing whitespace dropped.
pub open spec fn spec_trim_end(s: Seq<char>) -> Seq<char>
    decreases s.len(),
{
    if s.len() > 0 && is_white(s.last()) {
        spec_trim_end(s.drop_last())
    } else {
        s
    }
}

/// The text with surrounding whitespace dropped.
pub open spec fn spec_trim(s: Seq<char>) -> Seq<char> {
    spec_trim_end(spec_trim_start(s))
}

/// When the first `a` characters are whitespace and the next one is not,
/// trimming the start drops exactly those `a` characters.
proof fn lemma_trim_start_at(s: Seq<char>, a: int)
    requires
        0 <= a <= s.len(),
        forall|j: int| 0 <= j < a ==> is_white(s[j]),
        a < s.len() ==> !is_white(s[a]),
    ensures
        spec_trim_start(s) == s.skip(a),
    decreases a,
{
    if a == 0 {
        assert(s.skip(0) =~= s);
        if s.len() > 0 {
            assert(!is_white(s[0]));
        }
    } else {
        assert(is_white(s[0]));
        assert(s.drop_first() =~= s.skip(1));
        assert forall|j: int| 0 <= j < a - 1 implies is_white(s.skip(1)[j]) by {
            assert(s.skip(1)[j] == s[j + 1]);
        }
        if a - 1 < s.skip(1).len() {
            assert(s.skip(1)[a - 1] == s[a]);
        }
        lemma_trim_start_at(s.skip(1), a - 1);
        assert(s.skip(1).skip(a - 1) =~= s.skip(a));
    }
}

/// When the characters from `b` on are whitespace and the one before is
/// not, trimming the end keeps exactly the first `b` characters.
proof fn lemma_trim_end_at(s: Seq<char>, b: int)
    requires
        0 <= b <= s.len(),
        forall|j: int| b <= j < s.len() ==> is_white(s[j]),
        b > 0 ==> !is_white(s[b - 1]),
    ensures
        spec_trim_end(s) == s.take(b),
    decreases s.len() - b,
{
    if b == s.len() {
        assert(s.take(b) =~= s);
        if s.len() > 0 {
            assert(!is_white(s.last()));
        }
    } else {
        assert(is_white(s.last()));
        assert(s.drop_last() =~= s.take(s.len() - 1));
        assert forall|j: int|
            #![trigger s.take(s.len() - 1)[j]]
            b <= j < s.take(s.len() - 1).len() implies is_white(s.take(s.len() - 1)[j]) by {
            assert(s.take(s.len() - 1)[j] == s[j]);
        }
        if b > 0 {
            assert(s.take(s.len() - 1)[b - 1] == s[b - 1]);
        }
        lemma_trim_end_at(s.take(s.len() - 1), b);
        assert(s.take(s.len() - 1).take(b) =~= s.take(b));
    }
}

/// What one character of trimmed text contributes to the escaped form:
/// carriage returns and braces vanish, a line feed becomes the wiki
/// line-break `\\`, everything else stays.
pub open spec fn wiki_escape_char(c: char) -> Seq<char> {
    if c == '\r' || c == '{' || c == '}' {
        Seq::empty()
    } else if c == '\n' {
        seq!['\\', '\\']
    } else {
        seq![c]
    }
}

/// The escaped form of free text: surrounding whitespace dropped, then
/// every character replaced by its wiki-safe expansion.
pub open spec fn spec_wiki_escape(s: Seq<char>) -> Seq<char> {
    expand_chars(spec_trim(s), |c: char| wiki_escape_char(c))
}

/// Escapes free text for wiki markup.
pub fn wiki_escape(s: &str) -> (r: String)
    ensures
        r@ == spec_wiki_escape(s@),
{
    let ghost f = |c: char| wiki_escape_char(c);
    let n = s.unicode_len();
    let mut a: usize = 0;
    while a < n && char_is_white(s.get_char(a))
        invariant
            n == s@.len(),
            a <= n,
            forall|j: int| 0 <= j < a ==> is_white(s@[j]),
        decreases n - a,
    {
        a += 1;
    }
    let mut b: usize = n;
    while b > a && char_is_white(s.get_char(b - 1))
        invariant
            n == s@.len(),
            a <= b <= n,
            forall|j: int| 0 <= j < a ==> is_white(s@[j]),
            forall|j: int| b <= j < n ==> is_white(s@[j]),
        decreases b,
    {
        b -= 1;
    }
    let ghost trimmed = s@.skip(a as int).take(b - a);
    proof {
        lemma_trim_start_at(s@, a as int);
        assert forall|j: int|
            #![trigger s@.skip(a as int)[j]]
            b - a <= j < s@.skip(a as int).len() implies is_white(s@.skip(a as int)[j]) by {
            assert(s@.skip(a as int)[j] == s@[j + a]);
        }
        if b > a {
            assert(s@.skip(a as int)[b - a - 1] == s@[b - 1]);
        }
        lemma_trim_end_at(s@.skip(a as int), b - a);
        assert(spec_trim(s@) == trimmed);
    }
    let mut out: Vec<char> = Vec::new();
    let mut i: usize = a;
    proof {
        assert(trimmed.take(0) =~= Seq::<char>::empty());
        assert(out@ =~= expand_chars(trimmed.take(0), f));
    }
    while i < b
        invariant
            n == s@.len(),
            a <= i <= b <= n,
            trimmed == s@.skip(a as int).take(b - a),
            out@ == expand_chars(trimmed.take(i - a), f),
            f == (|c: char| wiki_escape_char(c)),
        decreases b - i,
    {
        let c = s.get_char(i);
        proof {
            assert(trimmed[i - a] == s@[i as int]);
            lemma_expand_chars_snoc(trimmed.take(i - a), f, c);
            assert(trimmed.take(i - a).push(c) =~= trimmed.take(i - a + 1));
        }
        if c == '\r' || c == '{' || c == '}' {
            proof {
                assert(out@ =~= expand_chars(trimmed.take(i - a + 1), f));
            }
        } else if c == '\n' {
            out.push('\\');
            out.push('\\');
            proof {
                assert(out@ =~= expand_chars(trimmed.take(i - a + 1), f));
            }
        } else {
            out.push(c);
            proof {
                assert(out@ =~= expand_chars(trimmed.take(i - a + 1), f));
            }
        }
        i += 1;
    }
    proof {
        assert(trimmed.take(b - a) =~= trimmed);
    }
    chars_to_string(&out)
}

} // verus!

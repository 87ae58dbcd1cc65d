//! Terminal content framed for a model prompt: it stands between `<BEGIN_OUTPUT>` and
//! `<END_OUTPUT>` lines, with markup characters escaped so that nothing in it can close the
//! block early.
use vstd::prelude::*;
use vstd::string::StringExecFns;
use crate::text::{chars_of, has_infix, occurs_at, push_char};

verus! {

broadcast use vstd::string::group_string_axioms;

/// The line that opens the block of terminal content.
pub open spec fn begin_marker() -> Seq<char> {
    "<BEGIN_OUTPUT>"@
}

/// The line that closes the block of terminal content.
pub open spec fn end_marker() -> Seq<char> {
    "<END_OUTPUT>"@
}

/// One character as it stands inside the block: `&`, `<` and `>` become `&amp;`, `&lt;`
/// and `&gt;`; every other character stays.
pub open spec fn escape_char(c: char) -> Seq<char> {
    if c == '&' {
        "&amp;"@
    } else if c == '<' {
        "&lt;"@
    } else if c == '>' {
        "&gt;"@
    } else {
        seq![c]
    }
}

/// The text with each character escaped.
pub open spec fn escaped_markup(s: Seq<char>) -> Seq<char>
    decreases s.len(),
{
    if s.len() == 0 {
        Seq::empty()
    } else {
        escaped_markup(s.drop_last()) + escape_char(s.last())
    }
}

/// The block handed to the model for terminal content: the opening line, the escaped
/// content, and the closing line.
pub open spec fn fenced(content: Seq<char>) -> Seq<char> {
    begin_marker() + "\n"@ + escaped_markup(content) + "\n"@ + end_marker()
}

/// Escapes `&`, `<` and `>` in the text.
pub fn escape_markup(text: &str) -> (out: String)
    ensures
        out@ == escaped_markup(text@),
{
    let v = chars_of(text);
    let mut out = String::new();
    let mut i: usize = 0;
    while i < v.len()
        invariant
            i <= v@.len(),
            v@ == text@,
            out@ == escaped_markup(v@.take(i as int)),
        decreases v@.len() - i,
    {
        let c = v[i];
        if c == '&' {
            out.append("&amp;");
        } else if c == '<' {
            out.append("&lt;");
        } else if c == '>' {
            out.append("&gt;");
        } else {
            push_char(&mut out, c);
        }
        assert(v@.take(i + 1).drop_last() == v@.take(i as int));
        i = i + 1;
    }
    assert(v@.take(v@.len() as int) == v@);
    out
}

/// Frames terminal content for a prompt: `<BEGIN_OUTPUT>`, a line break, the escaped
/// content, a line break, `<END_OUTPUT>`.
pub fn fence_output(content: &str) -> (block: String)
    ensures
        block@ == fenced(content@),
{
    let mut block = String::from_str("<BEGIN_OUTPUT>");
    block.append("\n");
    let body = escape_markup(content);
    block.append(body.as_str());
    block.append("\n");
    block.append("<END_OUTPUT>");
    block
}

/// Escaped text holds no `<` and no `>`.
pub proof fn lemma_escaped_has_no_angle(s: Seq<char>)
    ensures
        forall|i: int|
            0 <= i < escaped_markup(s).len() ==> escaped_markup(s)[i] != '<'
                && escaped_markup(s)[i] != '>',
    decreases s.len(),
{
    reveal_strlit("&amp;");
    reveal_strlit("&lt;");
    reveal_strlit("&gt;");
    if s.len() > 0 {
        lemma_escaped_has_no_angle(s.drop_last());
        let p = escaped_markup(s.drop_last());
        let q = escape_char(s.last());
        assert(forall|j: int| 0 <= j < q.len() ==> q[j] != '<' && q[j] != '>');
        assert forall|i: int| 0 <= i < escaped_markup(s).len() implies escaped_markup(s)[i]
            != '<' && escaped_markup(s)[i] != '>' by {
            if i < p.len() {
                assert(escaped_markup(s)[i] == p[i]);
            } else {
                assert(escaped_markup(s)[i] == q[i - p.len()]);
            }
        }
    }
}

/// Text without `&`, `<` and `>` is not changed by escaping.
pub proof fn lemma_plain_text_unescaped(s: Seq<char>)
    requires
        forall|i: int| 0 <= i < s.len() ==> s[i] != '&' && s[i] != '<' && s[i] != '>',
    ensures
        escaped_markup(s) == s,
    decreases s.len(),
{
    if s.len() > 0 {
        lemma_plain_text_unescaped(s.drop_last());
        assert(s.drop_last().push(s.last()) == s);
    }
}

/// Nothing in the content can close the block early: in the framed block the closing
/// marker occurs exactly once, at its end, and the opening marker exactly once, at its
/// start.
pub proof fn lemma_fence_closes_only_at_end(content: Seq<char>)
    ensures
        has_infix(escaped_markup(content), end_marker()) == false,
        has_infix(escaped_markup(content), begin_marker()) == false,
        forall|i: int|
            occurs_at(fenced(content), end_marker(), i) <==> i == fenced(content).len()
                - end_marker().len(),
        forall|i: int| occurs_at(fenced(content), begin_marker(), i) <==> i == 0,
{
    reveal_strlit("<BEGIN_OUTPUT>");
    reveal_strlit("<END_OUTPUT>");
    reveal_strlit("\n");
    lemma_escaped_has_no_angle(content);
    let e = escaped_markup(content);
    let f = fenced(content);
    let b = begin_marker();
    let z = end_marker();
    let nl: Seq<char> = "\n"@;
    assert(f == b + nl + e + nl + z);
    assert(f.len() == 14 + 1 + e.len() + 1 + 12);
    assert forall|i: int| !occurs_at(e, z, i) by {
        if occurs_at(e, z, i) {
            assert(e.subrange(i, i + z.len())[0] == z[0]);
        }
    }
    assert forall|i: int| !occurs_at(e, b, i) by {
        if occurs_at(e, b, i) {
            assert(e.subrange(i, i + b.len())[0] == b[0]);
        }
    }
    // Where each character of the block comes from.
    assert forall|k: int| 0 <= k < f.len() implies f[k] == (if k < 14 {
        b[k]
    } else if k == 14 {
        '\n'
    } else if k < 15 + e.len() {
        e[k - 15]
    } else if k == 15 + e.len() {
        '\n'
    } else {
        z[k - 16 - e.len()]
    }) by {}
    assert forall|i: int| occurs_at(f, z, i) implies i == f.len() - z.len() by {
        let w = f.subrange(i, i + z.len());
        assert(w[0] == f[i]);
        assert(f[i] == '<');
        if i > 0 && i < 15 + e.len() {
            if i < 14 {
                assert(b[i] != '<');
            } else if i == 14 {
            } else {
                assert(e[i - 15] != '<');
            }
        } else if i == 0 {
            assert(w[1] == f[1]);
            assert(f[1] == 'B');
        } else if i == 15 + e.len() {
        } else if i > 16 + e.len() {
            assert(z[i - 16 - e.len()] == f[i]);
        }
    }
    assert(f.subrange(f.len() - z.len(), f.len() as int) == z);
    assert forall|i: int| occurs_at(f, b, i) implies i == 0 by {
        let w = f.subrange(i, i + b.len());
        assert(w[0] == f[i]);
        assert(f[i] == '<');
        if i > 0 && i < 14 {
            assert(b[i] != '<');
        } else if i >= 15 && i < 15 + e.len() {
            assert(e[i - 15] != '<');
        } else if i >= 15 + e.len() {
            assert(i + b.len() > f.len());
        }
    }
    assert(f.subrange(0, b.len() as int) == b);
}

} // verus!

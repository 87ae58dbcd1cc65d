//! The summarizing pass of the standalone shell wrapper: escape stripping by bytes, the
//! request put to the model, and when its answer replaces the captured output.
use vstd::prelude::*;
use vstd::string::StringExecFns;
use vstd::utf8::{
    decode_utf8, encode_scalar, encode_utf8, encode_utf8_decode_utf8,
    encode_utf8_valid_utf8, has_width_1_encoding, valid_utf8,
};
use crate::fence::{fence_output, fenced};
use crate::text::{chars_of, extend_with_str, string_of, trim, trim_chars, trim_end};

verus! {

/// Whether a byte ends a CSI escape sequence (`0x40..=0x7E`).
pub open spec fn is_csi_final(b: u8) -> bool {
    0x40 <= b <= 0x7E
}

/// The position just after the CSI sequence whose parameters start at `i`: after its final
/// byte, or the end of the input when there is none.
pub open spec fn csi_end(s: Seq<u8>, i: int) -> int
    decreases s.len() - i,
    when 0 <= i
{
    if i >= s.len() {
        s.len() as int
    } else if is_csi_final(s[i]) {
        i + 1
    } else {
        csi_end(s, i + 1)
    }
}

/// A CSI sequence ends after where its parameters start, and within the input.
pub proof fn lemma_csi_end_bounds(s: Seq<u8>, i: int)
    requires
        0 <= i,
    ensures
        i <= csi_end(s, i) || (i > s.len() && csi_end(s, i) == s.len()),
        csi_end(s, i) <= s.len() || csi_end(s, i) == i + 1,
        i < s.len() ==> i < csi_end(s, i) <= s.len(),
    decreases s.len() - i,
{
    if i < s.len() && !is_csi_final(s[i]) {
        lemma_csi_end_bounds(s, i + 1);
    }
}

/// The bytes from position `i` on with escape sequences dropped: `ESC [` followed by
/// parameters up to and including a final byte in `0x40..=0x7E`, or `ESC` and the byte
/// after it.
pub open spec fn stripped_from(s: Seq<u8>, i: int) -> Seq<u8>
    decreases s.len() - i,
    when 0 <= i
{
    if i >= s.len() {
        Seq::empty()
    } else if s[i] == 0x1b {
        if i + 1 < s.len() && s[i + 1] == 0x5b {
            proof {
                lemma_csi_end_bounds(s, i + 2);
            }
            if i + 2 >= s.len() {
                Seq::empty()
            } else {
                stripped_from(s, csi_end(s, i + 2))
            }
        } else if i + 1 < s.len() {
            stripped_from(s, i + 2)
        } else {
            Seq::empty()
        }
    } else {
        seq![s[i]] + stripped_from(s, i + 1)
    }
}

/// What `String::from_utf8_lossy` decodes from `bytes`, invalid sequences replaced.
pub uninterp spec fn lossy_utf8(bytes: Seq<u8>) -> Seq<char>;

/// `String::from_utf8_lossy`: the text of the bytes, each invalid sequence replaced by
/// U+FFFD. The contract names the result `lossy_utf8` of the bytes and states that valid
/// UTF-8 is decoded unchanged, and that bytes without ESC give text without ESC (valid
/// parts are decoded as they are, and the replacement character is U+FFFD); how invalid
/// sequences are replaced is not stated further.
#[verifier::external_body]
fn utf8_lossy(bytes: &[u8]) -> (s: String)
    ensures
        s@ == lossy_utf8(bytes@),
        valid_utf8(bytes@) ==> s@ == decode_utf8(bytes@),
        no_escape_byte(bytes@) ==> no_escape_char(s@),
{
    String::from_utf8_lossy(bytes).into_owned()
}

/// The bytes with escape sequences dropped.
pub fn strip_escape_bytes(bytes: &[u8]) -> (out: Vec<u8>)
    ensures
        out@ == stripped_from(bytes@, 0),
{
    let n = bytes.len();
    let mut out: Vec<u8> = Vec::new();
    let mut i: usize = 0;
    while i < n
        invariant
            n == bytes@.len(),
            i <= n,
            out@ + stripped_from(bytes@, i as int) == stripped_from(bytes@, 0),
        decreases n - i,
    {
        if bytes[i] == 0x1b {
            if i + 1 < n && bytes[i + 1] == 0x5b {
                let mut j: usize = i + 2;
                while j < n && !(0x40 <= bytes[j] && bytes[j] <= 0x7E)
                    invariant
                        n == bytes@.len(),
                        i + 2 <= j <= n,
                        csi_end(bytes@, i + 2) == csi_end(bytes@, j as int),
                    decreases n - j,
                {
                    j = j + 1;
                }
                if j < n {
                    j = j + 1;
                }
                proof {
                    lemma_csi_end_bounds(bytes@, i + 2);
                    if i + 2 < n {
                        assert(stripped_from(bytes@, i as int) == stripped_from(
                            bytes@,
                            j as int,
                        ));
                    } else {
                        assert(stripped_from(bytes@, j as int) == Seq::<u8>::empty());
                    }
                }
                i = j;
            } else if i + 1 < n {
                i = i + 2;
            } else {
                i = i + 1;
            }
        } else {
            proof {
                assert(out@.push(bytes@[i as int]) + stripped_from(bytes@, i + 1) == out@ + (
                seq![bytes@[i as int]] + stripped_from(bytes@, i + 1)));
            }
            out.push(bytes[i]);
            i = i + 1;
        }
    }
    assert(out@ + Seq::<u8>::empty() == out@);
    out
}

/// Strips ANSI escape sequences and decodes the remaining bytes as UTF-8 text, invalid
/// sequences replaced.
pub fn strip_ansi(bytes: &[u8]) -> (text: String)
    ensures
        text@ == lossy_utf8(stripped_from(bytes@, 0)),
        valid_utf8(stripped_from(bytes@, 0)) ==> text@ == decode_utf8(stripped_from(bytes@, 0)),
        no_escape_char(text@),
{
    let kept = strip_escape_bytes(bytes);
    proof {
        lemma_stripped_from_has_no_escape(bytes@, 0);
    }
    utf8_lossy(kept.as_slice())
}

proof fn lemma_csi_end_shift(a: Seq<u8>, b: Seq<u8>, j: int)
    requires
        0 <= j,
    ensures
        csi_end(a + b, a.len() + j) == a.len() + csi_end(b, j),
    decreases b.len() - j,
{
    if j < b.len() {
        assert((a + b)[a.len() + j] == b[j]);
        if !is_csi_final(b[j]) {
            lemma_csi_end_shift(a, b, j + 1);
        }
    }
}

proof fn lemma_stripped_from_shift(a: Seq<u8>, b: Seq<u8>, j: int)
    requires
        0 <= j,
    ensures
        stripped_from(a + b, a.len() + j) == stripped_from(b, j),
    decreases b.len() - j,
{
    let s = a + b;
    let i = a.len() + j;
    if j < b.len() {
        assert(s[i] == b[j]);
        if i + 1 < s.len() {
            assert(s[i + 1] == b[j + 1]);
        }
        if b[j] == 0x1b {
            if j + 1 < b.len() && b[j + 1] == 0x5b {
                lemma_csi_end_bounds(b, j + 2);
                if j + 2 < b.len() {
                    lemma_csi_end_shift(a, b, j + 2);
                    lemma_stripped_from_shift(a, b, csi_end(b, j + 2));
                }
            } else if j + 1 < b.len() {
                lemma_stripped_from_shift(a, b, j + 2);
            }
        } else {
            lemma_stripped_from_shift(a, b, j + 1);
        }
    }
}

/// Whether a byte may stand inside a CSI sequence before its final byte: any byte outside
/// `0x40..=0x7E`, parameter and intermediate bytes (`0x20..=0x3F`) among them.
pub open spec fn is_csi_inner(b: u8) -> bool {
    b < 0x40 || b > 0x7E
}

/// A complete CSI sequence is removed whole, whatever follows it: `ESC [`, then bytes
/// outside `0x40..=0x7E` (parameter and intermediate bytes such as `?`, digits and `;`),
/// then a final byte in `0x40..=0x7E`. The same holds for the bytes around it, so `ESC [ ? 2 5 l` before
/// `Building` leaves exactly what stripping `Building` leaves.
pub proof fn lemma_csi_removed_whole(params: Seq<u8>, fin: u8, rest: Seq<u8>)
    requires
        forall|k: int| 0 <= k < params.len() ==> is_csi_inner(#[trigger] params[k]),
        0x40 <= fin <= 0x7E,
    ensures
        stripped_from(seq![0x1bu8, 0x5bu8] + params + seq![fin] + rest, 0) == stripped_from(
            rest,
            0,
        ),
{
    let head = seq![0x1bu8, 0x5bu8] + params + seq![fin];
    let s = head + rest;
    assert(s == seq![0x1bu8, 0x5bu8] + params + seq![fin] + rest);
    assert(s[0] == 0x1b);
    assert(s[1] == 0x5b);
    assert forall|k: int| 2 <= k <= params.len() + 2 implies csi_end(s, k) == params.len() + 3 by {
        lemma_csi_end_walk(params, fin, rest, k);
    }
    assert(csi_end(s, 2) == head.len());
    lemma_stripped_from_shift(head, rest, 0);
}

/// Stripping keeps every byte that is not part of an escape sequence, in order: a byte
/// other than ESC is kept and stripping goes on after it; ESC with a byte other than `[`
/// after it drops both; a lone ESC at the end is dropped.
pub proof fn lemma_strip_byte_by_byte(b: u8, rest: Seq<u8>)
    ensures
        b != 0x1b ==> stripped_from(seq![b] + rest, 0) == seq![b] + stripped_from(rest, 0),
        b != 0x5b ==> stripped_from(seq![0x1bu8, b] + rest, 0) == stripped_from(rest, 0),
        stripped_from(seq![0x1bu8], 0) == Seq::<u8>::empty(),
{
    lemma_stripped_from_shift(seq![b], rest, 0);
    lemma_stripped_from_shift(seq![0x1bu8, b], rest, 0);
    let s1 = seq![b] + rest;
    assert(s1[0] == b);
    let s2 = seq![0x1bu8, b] + rest;
    assert(s2[0] == 0x1b);
    assert(s2[1] == b);
}

/// A CSI sequence that never reaches a final byte is dropped to the end of the input.
pub proof fn lemma_unterminated_csi_dropped(params: Seq<u8>)
    requires
        forall|k: int| 0 <= k < params.len() ==> is_csi_inner(#[trigger] params[k]),
    ensures
        stripped_from(seq![0x1bu8, 0x5bu8] + params, 0) == Seq::<u8>::empty(),
{
    let s = seq![0x1bu8, 0x5bu8] + params;
    assert(s[0] == 0x1b);
    assert(s[1] == 0x5b);
    if params.len() > 0 {
        lemma_csi_end_runs_out(params, 2);
        assert(stripped_from(s, s.len() as int) == Seq::<u8>::empty());
    }
}

proof fn lemma_csi_end_runs_out(params: Seq<u8>, k: int)
    requires
        forall|i: int| 0 <= i < params.len() ==> is_csi_inner(#[trigger] params[i]),
        2 <= k <= params.len() + 2,
    ensures
        csi_end(seq![0x1bu8, 0x5bu8] + params, k) == params.len() + 2,
    decreases params.len() + 2 - k,
{
    let s = seq![0x1bu8, 0x5bu8] + params;
    if k < params.len() + 2 {
        assert(s[k] == params[k - 2]);
        assert(is_csi_inner(params[k - 2]));
        lemma_csi_end_runs_out(params, k + 1);
    }
}

proof fn lemma_csi_end_walk(params: Seq<u8>, fin: u8, rest: Seq<u8>, k: int)
    requires
        forall|i: int| 0 <= i < params.len() ==> is_csi_inner(#[trigger] params[i]),
        0x40 <= fin <= 0x7E,
        2 <= k <= params.len() + 2,
    ensures
        csi_end(seq![0x1bu8, 0x5bu8] + params + seq![fin] + rest, k) == params.len() + 3,
    decreases params.len() + 2 - k,
{
    let s = seq![0x1bu8, 0x5bu8] + params + seq![fin] + rest;
    if k < params.len() + 2 {
        assert(s[k] == params[k - 2]);
        assert(is_csi_inner(params[k - 2]));
        lemma_csi_end_walk(params, fin, rest, k + 1);
    } else {
        assert(s[k] == fin);
    }
}

/// Whether no byte of `s` is ESC (`0x1b`).
pub open spec fn no_escape_byte(s: Seq<u8>) -> bool {
    forall|k: int| 0 <= k < s.len() ==> s[k] != 0x1b
}

/// Whether no character of `s` is ESC (U+001B).
pub open spec fn no_escape_char(s: Seq<char>) -> bool {
    forall|k: int| 0 <= k < s.len() ==> s[k] as u32 != 0x1b
}

proof fn lemma_stripped_from_has_no_escape(s: Seq<u8>, i: int)
    requires
        0 <= i,
    ensures
        no_escape_byte(stripped_from(s, i)),
    decreases s.len() - i,
{
    if i < s.len() {
        if s[i] == 0x1b {
            if i + 1 < s.len() && s[i + 1] == 0x5b {
                lemma_csi_end_bounds(s, i + 2);
                if i + 2 < s.len() {
                    lemma_stripped_from_has_no_escape(s, csi_end(s, i + 2));
                }
            } else if i + 1 < s.len() {
                lemma_stripped_from_has_no_escape(s, i + 2);
            }
        } else {
            lemma_stripped_from_has_no_escape(s, i + 1);
            let r = stripped_from(s, i + 1);
            assert forall|k: int| 0 <= k < stripped_from(s, i).len() implies stripped_from(
                s,
                i,
            )[k] != 0x1b by {
                if k > 0 {
                    assert(stripped_from(s, i)[k] == r[k - 1]);
                }
            }
        }
    }
}

proof fn lemma_stripped_from_plain(s: Seq<u8>, i: int)
    requires
        0 <= i <= s.len(),
        no_escape_byte(s),
    ensures
        stripped_from(s, i) == s.skip(i),
    decreases s.len() - i,
{
    if i < s.len() {
        lemma_stripped_from_plain(s, i + 1);
        assert(seq![s[i]] + s.skip(i + 1) == s.skip(i));
    } else {
        assert(s.skip(i) == Seq::<u8>::empty());
    }
}

/// The UTF-8 bytes of a scalar: the scalar itself when it is below `0x80`, otherwise bytes
/// that are all at least `0x80`.
proof fn lemma_scalar_bytes(v: u32)
    ensures
        has_width_1_encoding(v) ==> encode_scalar(v) == seq![v as u8],
        !has_width_1_encoding(v) ==> forall|k: int|
            0 <= k < encode_scalar(v).len() ==> encode_scalar(v)[k] >= 0x80,
{
    assert(v <= 0x7F ==> (v & 0x7F) as u8 == v as u8) by (bit_vector);
    assert(0xC0u8 | ((v >> 6) & 0x1F) as u8 >= 0x80) by (bit_vector);
    assert(0xE0u8 | ((v >> 12) & 0x0F) as u8 >= 0x80) by (bit_vector);
    assert(0xF0u8 | ((v >> 18) & 0x7) as u8 >= 0x80) by (bit_vector);
    assert(0x80u8 | (v & 0x3F) as u8 >= 0x80) by (bit_vector);
    assert(0x80u8 | ((v >> 6) & 0x3F) as u8 >= 0x80) by (bit_vector);
    assert(0x80u8 | ((v >> 12) & 0x3F) as u8 >= 0x80) by (bit_vector);
}

/// Text holds an ESC character exactly when its UTF-8 encoding holds an ESC byte.
proof fn lemma_encode_escape(chars: Seq<char>)
    ensures
        no_escape_byte(encode_utf8(chars)) <==> no_escape_char(chars),
    decreases chars.len(),
{
    if chars.len() > 0 {
        let rest = chars.drop_first();
        lemma_encode_escape(rest);
        let v = chars[0] as u32;
        lemma_scalar_bytes(v);
        let h = encode_scalar(v);
        let t = encode_utf8(rest);
        assert(encode_utf8(chars) == h + t);
        if no_escape_char(chars) {
            assert(v != 0x1b);
            assert forall|k: int| 0 <= k < rest.len() implies rest[k] as u32 != 0x1b by {
                assert(rest[k] == chars[k + 1]);
            }
            assert forall|k: int| 0 <= k < (h + t).len() implies (h + t)[k] != 0x1b by {
                if k < h.len() {
                    assert((h + t)[k] == h[k]);
                    if has_width_1_encoding(v) {
                        assert(h[k] == v as u8);
                    }
                } else {
                    assert((h + t)[k] == t[k - h.len()]);
                }
            }
        } else {
            let k = choose|k: int| 0 <= k < chars.len() && chars[k] as u32 == 0x1b;
            if k == 0 {
                assert(v == 0x1b);
                assert((h + t)[0] == h[0]);
            } else {
                assert(rest[k - 1] == chars[k]);
                assert(!no_escape_byte(t));
                let j = choose|j: int| 0 <= j < t.len() && t[j] == 0x1b;
                assert((h + t)[h.len() + j] == t[j]);
            }
        }
    }
}

/// Stripping leaves no ESC byte, so stripping the result again changes nothing.
pub proof fn lemma_strip_idempotent(bytes: Seq<u8>)
    ensures
        no_escape_byte(stripped_from(bytes, 0)),
        stripped_from(stripped_from(bytes, 0), 0) == stripped_from(bytes, 0),
{
    lemma_stripped_from_has_no_escape(bytes, 0);
    lemma_stripped_from_plain(stripped_from(bytes, 0), 0);
    assert(stripped_from(bytes, 0).skip(0) == stripped_from(bytes, 0));
}

/// Text without ESC characters comes out of `strip_ansi` unchanged: its UTF-8 bytes lose
/// nothing to stripping and decode back to it. Every text `strip_ansi` returns is such a
/// text, so stripping it again gives it back.
pub proof fn lemma_strip_ansi_keeps_plain_text(text: Seq<char>)
    requires
        no_escape_char(text),
    ensures
        stripped_from(encode_utf8(text), 0) == encode_utf8(text),
        valid_utf8(stripped_from(encode_utf8(text), 0)),
        decode_utf8(stripped_from(encode_utf8(text), 0)) == text,
{
    lemma_encode_escape(text);
    lemma_stripped_from_plain(encode_utf8(text), 0);
    assert(encode_utf8(text).skip(0) == encode_utf8(text));
    encode_utf8_valid_utf8(text);
    encode_utf8_decode_utf8(text);
}

/// The request put to the model for a command and its clean output, the output framed
/// between `<BEGIN_OUTPUT>` and `<END_OUTPUT>` lines with its markup characters escaped.
pub open spec fn summarize_request(cmd: Seq<char>, clean: Seq<char>) -> Seq<char> {
    "Command: "@ + cmd + "\nOutput:\n"@ + fenced(clean)
        + "\n\nSummarize or shorten the output above without losing important information.\nRules:\n- If the output is already very short or cannot be meaningfully shortened, reply with exactly: ORIGINAL\n- Otherwise reply with only your shortened version, no preamble or explanation."@
}

/// Builds the summarize request for a command and its clean output.
pub fn summarize_prompt(cmd: &str, clean: &str) -> (prompt: String)
    ensures
        prompt@ == summarize_request(cmd@, clean@),
{
    let mut p = String::from_str("Command: ");
    p.append(cmd);
    p.append("\nOutput:\n");
    let block = fence_output(clean);
    p.append(block.as_str());
    p.append(
        "\n\nSummarize or shorten the output above without losing important information.\nRules:\n- If the output is already very short or cannot be meaningfully shortened, reply with exactly: ORIGINAL\n- Otherwise reply with only your shortened version, no preamble or explanation.",
    );
    p
}

/// The code of a character with ASCII upper-case letters lowered.
pub open spec fn ascii_lower_code(c: char) -> u32 {
    let u = c as u32;
    if 0x41 <= u <= 0x5A {
        (u + 0x20) as u32
    } else {
        u
    }
}

/// Whether two texts are equal ignoring ASCII case, as `str::eq_ignore_ascii_case`.
pub open spec fn eq_ignoring_ascii_case(a: Seq<char>, b: Seq<char>) -> bool {
    a.len() == b.len() && forall|i: int|
        0 <= i < a.len() ==> ascii_lower_code(#[trigger] a[i]) == ascii_lower_code(b[i])
}

fn lower_code(c: char) -> (u: u32)
    ensures
        u == ascii_lower_code(c),
{
    let u = c as u32;
    if 0x41 <= u && u <= 0x5A {
        u + 0x20
    } else {
        u
    }
}

fn chars_eq_ignore_ascii_case(a: &[char], b: &[char]) -> (r: bool)
    ensures
        r == eq_ignoring_ascii_case(a@, b@),
{
    if a.len() != b.len() {
        return false;
    }
    let mut i: usize = 0;
    while i < a.len()
        invariant
            a@.len() == b@.len(),
            i <= a@.len(),
            forall|k: int| 0 <= k < i ==> ascii_lower_code(#[trigger] a@[k]) == ascii_lower_code(
                b@[k],
            ),
        decreases a@.len() - i,
    {
        if lower_code(a[i]) != lower_code(b[i]) {
            return false;
        }
        i = i + 1;
    }
    true
}

/// Whether the model's answer replaces the captured output: not when it says `ORIGINAL`
/// (in any ASCII case, surrounded by any white space), not when it is blank, and not when
/// it is at least as long as the clean output, in UTF-8 bytes.
pub open spec fn summary_accepted(summary: Seq<char>, clean: Seq<char>) -> bool {
    !(eq_ignoring_ascii_case(trim(summary), "ORIGINAL"@) || encode_utf8(summary).len()
        >= encode_utf8(clean).len() || trim(summary).len() == 0)
}

/// Decides whether the model's answer replaces the captured output.
pub fn use_summary(summary: &str, clean: &str) -> (b: bool)
    requires
        encode_utf8(summary@).len() <= usize::MAX,
        encode_utf8(clean@).len() <= usize::MAX,
    ensures
        b == summary_accepted(summary@, clean@),
{
    let t = trim_chars(chars_of(summary).as_slice());
    let original = chars_of("ORIGINAL");
    !(chars_eq_ignore_ascii_case(t.as_slice(), original.as_slice()) || summary.len()
        >= clean.len() || t.len() == 0)
}

/// The block shown in place of a long output: a marker line, then the summary without its
/// trailing white space, then a line break.
pub fn summarized_block(summary: &str) -> (out: Vec<u8>)
    ensures
        out@ == encode_utf8("\r\n[AURA: summarized]\r\n"@) + encode_utf8(trim_end(summary@))
            + encode_utf8("\r\n"@),
{
    let mut out: Vec<u8> = Vec::new();
    extend_with_str(&mut out, "\r\n[AURA: summarized]\r\n");
    let body = string_of(trim_end_chars(chars_of(summary).as_slice()).as_slice());
    extend_with_str(&mut out, body.as_str());
    extend_with_str(&mut out, "\r\n");
    out
}

fn trim_end_chars(v: &[char]) -> (t: Vec<char>)
    ensures
        t@ == trim_end(v@),
{
    let mut j: usize = v.len();
    assert(v@.take(j as int) == v@);
    while j > 0 && crate::text::char_is_white_space(v[j - 1])
        invariant
            j <= v@.len(),
            trim_end(v@) == trim_end(v@.take(j as int)),
        decreases j,
    {
        assert(v@.take(j as int).drop_last() == v@.take(j - 1));
        j = j - 1;
    }
    let mut t: Vec<char> = Vec::new();
    let mut k: usize = 0;
    while k < j
        invariant
            k <= j <= v@.len(),
            t@ == v@.take(k as int),
        decreases j - k,
    {
        assert(v@.take(k as int + 1) == v@.take(k as int).push(v@[k as int]));
        t.push(v[k]);
        k = k + 1;
    }
    t
}

/// What reaches the display for a command: a line break, the body, then the prompt.
pub fn framed_display(body: &[u8], prompt: &[u8]) -> (out: Vec<u8>)
    ensures
        out@ == encode_utf8("\r\n"@) + body@ + prompt@,
{
    let mut out: Vec<u8> = Vec::new();
    extend_with_str(&mut out, "\r\n");
    out.extend_from_slice(body);
    if prompt.len() > 0 {
        out.extend_from_slice(prompt);
    }
    assert(out@ =~= encode_utf8("\r\n"@) + body@ + prompt@);
    out
}

} // verus!

//! Excerpts of what a process printed.
use vstd::prelude::*;
use vstd::string::*;

use crate::digest::utf8;
use crate::text::{cat, cat3, cat4, chars_of, copy, decimal, number, string_of};

verus! {

/// How many bytes of output an excerpt keeps.
pub const OUTPUT_EXCERPT_LIMIT: usize = 4096;

/// How many characters of an error stream are kept.
pub const STDERR_LIMIT: usize = 2000;

/// The text of some bytes, with replacement characters for what is not UTF-8.
pub uninterp spec fn utf8_lossy(bytes: Seq<u8>) -> Seq<char>;

/// `String::from_utf8_lossy`: the text of some bytes; bytes that are UTF-8 give the text that they
/// encode.
#[verifier::external_body]
pub(crate) fn lossy(bytes: &[u8]) -> (r: String)
    ensures
        r@ == utf8_lossy(bytes@),
        vstd::utf8::valid_utf8(bytes@) ==> r@ == vstd::utf8::decode_utf8(bytes@),
{
    String::from_utf8_lossy(bytes).into_owned()
}

/// Bytes that are UTF-8 are shown as the text that they encode, without replacements.
pub open spec fn shown_as_is(bytes: Seq<u8>) -> bool {
    vstd::utf8::valid_utf8(bytes) ==> utf8_lossy(bytes) == vstd::utf8::decode_utf8(bytes)
}

proof fn lemma_utf8_first(s: Seq<char>)
    requires
        s.len() > 0,
    ensures
        utf8(s) == vstd::utf8::encode_scalar(s[0] as u32) + utf8(s.skip(1)),
{
    assert(s.drop_first() =~= s.skip(1));
}

/// How many bytes a character takes.
fn width(c: char) -> (r: usize)
    ensures
        r == vstd::utf8::encode_scalar(c as u32).len(),
        1 <= r <= 4,
{
    proof {
        vstd::utf8::char_is_scalar(c);
    }
    let n: u32 = c as u32;
    if n < 0x80 {
        1
    } else if n < 0x800 {
        2
    } else if n < 0x10000 {
        3
    } else {
        4
    }
}

/// The longest beginning of a text that fits in `limit` bytes.
pub open spec fn fitting_head(s: Seq<char>, limit: nat) -> Seq<char>
    decreases s.len(),
{
    if utf8(s).len() <= limit || s.len() == 0 {
        s
    } else {
        fitting_head(s.drop_last(), limit)
    }
}

proof fn lemma_utf8_last(s: Seq<char>)
    requires
        s.len() > 0,
    ensures
        utf8(s).len() == utf8(s.drop_last()).len() + vstd::utf8::encode_scalar(s.last() as u32).len(),
    decreases s.len(),
{
    lemma_utf8_first(s);
    if s.len() > 1 {
        lemma_utf8_last(s.skip(1));
        lemma_utf8_first(s.drop_last());
        assert(s.skip(1).drop_last() =~= s.drop_last().skip(1));
        assert(s.skip(1).last() == s.last());
    } else {
        assert(s.skip(1) =~= s.drop_last());
    }
}

proof fn lemma_fitting_head(s: Seq<char>, limit: nat, n: int)
    requires
        0 <= n <= s.len(),
        utf8(s.take(n)).len() <= limit,
        n < s.len() ==> utf8(s.take(n + 1)).len() > limit,
    ensures
        fitting_head(s, limit) == s.take(n),
    decreases s.len(),
{
    if n < s.len() {
        lemma_longer(s, n + 1);
        assert(utf8(s).len() > limit);
        assert(s.drop_last().take(n) =~= s.take(n));
        if n + 1 < s.len() {
            assert(s.drop_last().take(n + 1) =~= s.take(n + 1));
        }
        lemma_fitting_head(s.drop_last(), limit, n);
    } else {
        assert(s.take(n) =~= s);
    }
}

proof fn lemma_longer(s: Seq<char>, n: int)
    requires
        0 <= n <= s.len(),
    ensures
        utf8(s.take(n)).len() <= utf8(s).len(),
    decreases s.len(),
{
    if n < s.len() {
        lemma_utf8_last(s);
        assert(s.drop_last().take(n) =~= s.take(n));
        lemma_longer(s.drop_last(), n);
    } else {
        assert(s.take(n) =~= s);
    }
}

/// The longest beginning of a text that fits in `limit` bytes.
pub fn head_fitting(s: &str, limit: usize) -> (r: String)
    ensures
        r@ == fitting_head(s@, limit as nat),
{
    let v = chars_of(s);
    let mut used: usize = 0;
    let mut n: usize = 0;
    while n < v.len()
        invariant
            v@ == s@,
            n <= v@.len(),
            used == utf8(s@.take(n as int)).len(),
            used <= limit,
        decreases v.len() - n,
    {
        let w = width(v[n]);
        proof {
            lemma_utf8_last(s@.take(n + 1));
            assert(s@.take(n + 1).drop_last() =~= s@.take(n as int));
        }
        if w > limit - used {
            proof {
                lemma_fitting_head(s@, limit as nat, n as int);
            }
            assert(v@.subrange(0, n as int) =~= s@.take(n as int));
            return string_of(&v, 0, n);
        }
        used += w;
        n += 1;
    }
    proof {
        lemma_fitting_head(s@, limit as nat, n as int);
    }
    assert(v@.subrange(0, n as int) =~= s@.take(n as int));
    string_of(&v, 0, n)
}

/// The longest end of a text that fits in `limit` bytes.
pub open spec fn fitting_tail(s: Seq<char>, limit: nat) -> Seq<char>
    decreases s.len(),
{
    if utf8(s).len() <= limit || s.len() == 0 {
        s
    } else {
        fitting_tail(s.skip(1), limit)
    }
}

/// A text that fits in `limit` bytes as it is; of a longer one its end, below a line that says how
/// many bytes are over.
pub open spec fn tail_truncated(s: Seq<char>, limit: nat) -> Seq<char> {
    if utf8(s).len() <= limit {
        s
    } else {
        "… ["@ + decimal((utf8(s).len() - limit) as nat) + " bytes truncated]\n"@ + fitting_tail(s, limit)
    }
}

/// A text that fits in `limit` bytes as it is; of a longer one its end.
pub fn tail_truncate(s: &str, limit: usize) -> (r: String)
    ensures
        r@ == tail_truncated(s@, limit as nat),
{
    let bytes = s.as_bytes();
    let total: usize = bytes.len();
    if total <= limit {
        return copy(s);
    }
    let v = chars_of(s);
    let mut left: usize = total;
    let mut k: usize = 0;
    assert(v@.skip(0) =~= v@);
    while left > limit && k < v.len()
        invariant
            k <= v@.len(),
            v@ == s@,
            left == utf8(v@.skip(k as int)).len(),
            fitting_tail(s@, limit as nat) == fitting_tail(v@.skip(k as int), limit as nat),
        decreases v.len() - k,
    {
        proof {
            let rest = v@.skip(k as int);
            lemma_utf8_first(rest);
            assert(rest.skip(1) =~= v@.skip(k + 1));
            assert(rest[0] == v@[k as int]);
        }
        left -= width(v[k]);
        k += 1;
    }
    let tail = string_of(&v, k, v.len());
    assert(tail@ =~= v@.skip(k as int));
    let over = number((total - limit) as u64);
    cat4("… [", over.as_str(), " bytes truncated]\n", tail.as_str())
}

/// What is kept of a process's two streams, the error stream under a heading; nothing where both
/// are empty.
pub open spec fn excerpt_of(out: Seq<char>, err: Seq<char>) -> Option<Seq<char>> {
    if out.len() == 0 && err.len() == 0 {
        None
    } else if err.len() == 0 {
        Some(tail_truncated(out, OUTPUT_EXCERPT_LIMIT as nat))
    } else {
        Some(tail_truncated(out + "[stderr]\n"@ + err, OUTPUT_EXCERPT_LIMIT as nat))
    }
}

/// What is kept of a process's two streams.
pub fn output_excerpt(out: &str, err: &str) -> (r: Option<String>)
    ensures
        r.deep_view() == excerpt_of(out@, err@),
{
    if out.is_empty() && err.is_empty() {
        return None;
    }
    if err.is_empty() {
        return Some(tail_truncate(out, OUTPUT_EXCERPT_LIMIT));
    }
    let all = cat3(out, "[stderr]\n", err);
    Some(tail_truncate(all.as_str(), OUTPUT_EXCERPT_LIMIT))
}

/// What is kept of what a process wrote.
pub fn build_output_excerpt(stdout: &Vec<u8>, stderr: &Vec<u8>) -> (r: Option<String>)
    ensures
        r.deep_view() == excerpt_of(utf8_lossy(stdout@), utf8_lossy(stderr@)),
        shown_as_is(stdout@),
        shown_as_is(stderr@),
        stdout@.len() == 0 && stderr@.len() == 0 ==> r is None,
{
    let out = lossy(stdout.as_slice());
    let err = lossy(stderr.as_slice());
    output_excerpt(out.as_str(), err.as_str())
}

/// The start of an error stream: all of it where it takes no more than the limit in bytes, or else
/// that many characters.
pub open spec fn head_truncated(s: Seq<char>) -> Seq<char> {
    if utf8(s).len() <= STDERR_LIMIT {
        s
    } else if s.len() <= STDERR_LIMIT {
        s + "\n… (truncated)"@
    } else {
        s.take(STDERR_LIMIT as int) + "\n… (truncated)"@
    }
}

/// The start of an error stream.
pub fn stderr_head(s: &str) -> (r: String)
    ensures
        r@ == head_truncated(s@),
{
    if s.as_bytes().len() <= STDERR_LIMIT {
        return copy(s);
    }
    let v = chars_of(s);
    if v.len() <= STDERR_LIMIT {
        cat(s, "\n… (truncated)")
    } else {
        let head = string_of(&v, 0, STDERR_LIMIT);
        assert(head@ =~= s@.take(STDERR_LIMIT as int));
        cat(head.as_str(), "\n… (truncated)")
    }
}

/// The start of what a process wrote to its error stream.
pub fn truncated_stderr(stderr: &Vec<u8>) -> (r: String)
    ensures
        r@ == head_truncated(utf8_lossy(stderr@)),
        shown_as_is(stderr@),
{
    let text = lossy(stderr.as_slice());
    stderr_head(text.as_str())
}

/// What is kept of a long text is an end of it, and takes no more than `limit` bytes.
pub proof fn law_tail_fits(s: Seq<char>, limit: nat)
    ensures
        utf8(fitting_tail(s, limit)).len() <= limit,
        fitting_tail(s, limit).is_suffix_of(s),
        forall|k: int|
            0 <= k < s.len() - fitting_tail(s, limit).len() ==> utf8(#[trigger] s.skip(k)).len() > limit,
    decreases s.len(),
{
    let t = fitting_tail(s, limit);
    if utf8(s).len() <= limit || s.len() == 0 {
        assert(t =~= s.subrange(s.len() - t.len(), s.len() as int));
    } else {
        law_tail_fits(s.skip(1), limit);
        assert(s.skip(1).subrange(s.skip(1).len() - t.len(), s.skip(1).len() as int) =~= s.subrange(
            s.len() - t.len(),
            s.len() as int,
        ));
        assert forall|k: int| 0 <= k < s.len() - t.len() implies utf8(#[trigger] s.skip(k)).len() > limit by {
            if k == 0 {
                assert(s.skip(0) =~= s);
            } else {
                assert(s.skip(1).skip(k - 1) =~= s.skip(k));
            }
        }
    }
}

/// What is kept of a process's output: nothing only where both streams are empty; all of it where it is
/// short, the error stream under a heading behind the other; of what is long, the end, below a line that
/// says how much is missing.
pub proof fn law_what_is_kept_of_output(out: Seq<char>, err: Seq<char>)
    ensures
        excerpt_of(out, err) is None <==> out.len() == 0 && err.len() == 0,
        err.len() == 0 && out.len() > 0 && utf8(out).len() <= OUTPUT_EXCERPT_LIMIT ==> excerpt_of(out, err) == Some(
            out,
        ),
        err.len() > 0 && utf8(out + "[stderr]\n"@ + err).len() <= OUTPUT_EXCERPT_LIMIT ==> excerpt_of(out, err)
            == Some(out + "[stderr]\n"@ + err),
        err.len() > 0 && utf8(out + "[stderr]\n"@ + err).len() > OUTPUT_EXCERPT_LIMIT ==> (excerpt_of(
            out,
            err,
        ) matches Some(t) && fitting_tail(out + "[stderr]\n"@ + err, OUTPUT_EXCERPT_LIMIT as nat).is_suffix_of(t)),
        err.len() == 0 && utf8(out).len() > OUTPUT_EXCERPT_LIMIT ==> (excerpt_of(out, err) matches Some(t)
            && fitting_tail(out, OUTPUT_EXCERPT_LIMIT as nat).is_suffix_of(t)),
        OUTPUT_EXCERPT_LIMIT == 4096,
{
    if err.len() > 0 || out.len() > 0 {
        let all = if err.len() > 0 {
            out + "[stderr]\n"@ + err
        } else {
            out
        };
        let tail = fitting_tail(all, OUTPUT_EXCERPT_LIMIT as nat);
        let t = tail_truncated(all, OUTPUT_EXCERPT_LIMIT as nat);
        if utf8(all).len() > OUTPUT_EXCERPT_LIMIT {
            assert(tail =~= t.subrange(t.len() - tail.len(), t.len() as int));
        }
    }
}

/// What is kept of an error stream is all of it where it is short, and otherwise begins as it does.
pub proof fn law_what_is_kept_of_errors(s: Seq<char>)
    ensures
        utf8(s).len() <= STDERR_LIMIT ==> head_truncated(s) == s,
        s.len() <= STDERR_LIMIT ==> s.is_prefix_of(head_truncated(s)),
        s.len() > STDERR_LIMIT && utf8(s).len() > STDERR_LIMIT ==> s.take(STDERR_LIMIT as int).is_prefix_of(
            head_truncated(s),
        ),
{
    let t = head_truncated(s);
    if s.len() <= STDERR_LIMIT {
        assert(t.take(s.len() as int) =~= s);
        assert(s =~= t.subrange(0, s.len() as int));
    } else if utf8(s).len() > STDERR_LIMIT {
        let head = s.take(STDERR_LIMIT as int);
        assert(head =~= t.subrange(0, head.len() as int));
    }
}

/// What is shown of the head of a text is a beginning of it that fits, and no longer one does.
pub proof fn law_head_fits(s: Seq<char>, limit: nat)
    ensures
        fitting_head(s, limit).is_prefix_of(s),
        utf8(fitting_head(s, limit)).len() <= limit || fitting_head(s, limit).len() == 0,
        utf8(s).len() <= limit ==> fitting_head(s, limit) == s,
        forall|k: int|
            fitting_head(s, limit).len() < k <= s.len() ==> utf8(#[trigger] s.take(k)).len() > limit,
    decreases s.len(),
{
    let t = fitting_head(s, limit);
    if utf8(s).len() <= limit || s.len() == 0 {
        assert(t =~= s.subrange(0, t.len() as int));
    } else {
        let rest = s.drop_last();
        law_head_fits(rest, limit);
        assert(rest.subrange(0, t.len() as int) =~= s.subrange(0, t.len() as int));
        assert forall|k: int| t.len() < k <= s.len() implies utf8(#[trigger] s.take(k)).len() > limit by {
            if k == s.len() {
                assert(s.take(k) =~= s);
            } else {
                assert(rest.take(k) =~= s.take(k));
            }
        }
    }
}

/// What is cut off a long text is told: the line above what is left says how many bytes are over the limit.
pub proof fn law_the_cut_is_told(s: Seq<char>, limit: nat)
    requires
        utf8(s).len() > limit,
    ensures
        ("… ["@ + decimal((utf8(s).len() - limit) as nat)).is_prefix_of(tail_truncated(s, limit)),
        crate::text::value_of_digits(decimal((utf8(s).len() - limit) as nat)) == utf8(s).len() - limit,
{
    let over = (utf8(s).len() - limit) as nat;
    crate::text::law_decimal(over);
    let head = "… ["@ + decimal(over);
    let t = tail_truncated(s, limit);
    assert(head =~= t.subrange(0, head.len() as int));
}

} // verus!

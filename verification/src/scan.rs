//! The anchor-target grammar of a listing page.
//!
//! A page body is scanned, byte by byte and without requiring well-formed
//! HTML, for `href="` (case-insensitive, not preceded by a word byte) and the
//! non-empty run of non-quote bytes that follows it. Each such run is one
//! candidate link target. The scan is this crate's own grammar, defined by
//! `scan_from` and implemented by `extract_hrefs`.
use vstd::prelude::*;

verus! {

/// The double-quote byte `"` that delimits an anchor target.
pub const QUOTE: u8 = 34;

/// A byte that can sit inside a word: ASCII letters, digits, underscore.
/// `href` must not be preceded by one, so that e.g. `xhref="` is not a match.
pub open spec fn is_word_byte(b: u8) -> bool {
    (97 <= b && b <= 122) || (65 <= b && b <= 90) || (48 <= b && b <= 57) || b == 95
}

/// Position `i` of `s` starts a match: `href="` (any letter case) at a word
/// boundary, followed by at least one byte that is not `"`.
pub open spec fn match_at(s: Seq<u8>, i: int) -> bool {
    &&& 0 <= i
    &&& i + 7 <= s.len()
    &&& (i == 0 || !is_word_byte(s[i - 1]))
    &&& (s[i] == 104 || s[i] == 72)
    &&& (s[i + 1] == 114 || s[i + 1] == 82)
    &&& (s[i + 2] == 101 || s[i + 2] == 69)
    &&& (s[i + 3] == 102 || s[i + 3] == 70)
    &&& s[i + 4] == 61
    &&& s[i + 5] == QUOTE
    &&& s[i + 6] != QUOTE
}

/// The first position at or after `j` holding `"`, or the end of `s`.
pub open spec fn quote_end(s: Seq<u8>, j: int) -> int
    decreases s.len() - j,
{
    if j >= s.len() {
        s.len() as int
    } else if j < 0 {
        0
    } else if s[j] == QUOTE {
        j
    } else {
        quote_end(s, j + 1)
    }
}

pub proof fn lemma_quote_end(s: Seq<u8>, j: int)
    requires
        0 <= j <= s.len(),
    ensures
        j <= quote_end(s, j) <= s.len(),
        quote_end(s, j) < s.len() ==> s[quote_end(s, j)] == QUOTE,
        forall|k: int| j <= k < quote_end(s, j) ==> s[k] != QUOTE,
    decreases s.len() - j,
{
    if j < s.len() && s[j] != QUOTE {
        lemma_quote_end(s, j + 1);
    }
}

/// All captured link targets of `s` from position `i` on, in page order:
/// at each match the capture runs to the next quote (or the end of the page)
/// and the scan resumes there.
pub open spec fn scan_from(s: Seq<u8>, i: int) -> Seq<Seq<u8>>
    decreases s.len() - i,
    via scan_from_dec
{
    if i < 0 || i + 7 > s.len() {
        Seq::empty()
    } else if match_at(s, i) {
        seq![s.subrange(i + 6, quote_end(s, i + 6))] + scan_from(s, quote_end(s, i + 6))
    } else {
        scan_from(s, i + 1)
    }
}

#[via_fn]
proof fn scan_from_dec(s: Seq<u8>, i: int) {
    if !(i < 0 || i + 7 > s.len()) && match_at(s, i) {
        lemma_quote_end(s, i + 6);
    }
}

/// The views of a sequence of byte vectors.
pub open spec fn views_of(s: Seq<Vec<u8>>) -> Seq<Seq<u8>> {
    s.map_values(|v: Vec<u8>| v@)
}

/// Scan a page body for every `href="..."` capture, in page order.
pub fn extract_hrefs(body: &[u8]) -> (r: Vec<Vec<u8>>)
    ensures
        views_of(r@) == scan_from(body@, 0),
{
    let n = body.len();
    let mut out: Vec<Vec<u8>> = Vec::new();
    let mut i: usize = 0;
    proof {
        assert(views_of(out@) + scan_from(body@, 0) =~= scan_from(body@, 0));
    }
    while i <= n && n - i >= 7
        invariant
            0 <= i <= n,
            n == body@.len(),
            scan_from(body@, 0) == views_of(out@) + scan_from(body@, i as int),
        decreases n - i,
    {
        let boundary = i == 0 || !is_word_byte_at(body, i - 1);
        let is_match = boundary && (body[i] == 104 || body[i] == 72) && (body[i + 1] == 114
            || body[i + 1] == 82) && (body[i + 2] == 101 || body[i + 2] == 69) && (body[i + 3]
            == 102 || body[i + 3] == 70) && body[i + 4] == 61 && body[i + 5] == QUOTE && body[i
            + 6] != QUOTE;
        if is_match {
            assert(match_at(body@, i as int));
            let mut k = i + 6;
            while k < n && body[k] != QUOTE
                invariant
                    i + 6 <= k <= n,
                    n == body@.len(),
                    quote_end(body@, i + 6) == quote_end(body@, k as int),
                decreases n - k,
            {
                k = k + 1;
            }
            proof {
                assert(quote_end(body@, k as int) == k);
                lemma_quote_end(body@, i + 6);
            }
            let ghost out0 = views_of(out@);
            let ghost cap = body@.subrange(i + 6, k as int);
            let capture = vstd::slice::slice_to_vec(vstd::slice::slice_subrange(body, i + 6, k));
            out.push(capture);
            proof {
                assert(views_of(out@) =~= out0.push(cap));
                assert(scan_from(body@, i as int) == seq![cap] + scan_from(body@, k as int));
                assert(out0 + (seq![cap] + scan_from(body@, k as int)) =~= out0.push(cap)
                    + scan_from(body@, k as int));
            }
            i = k;
        } else {
            assert(!match_at(body@, i as int));
            assert(scan_from(body@, i as int) == scan_from(body@, i + 1));
            i = i + 1;
        }
    }
    proof {
        assert(scan_from(body@, i as int) == Seq::<Seq<u8>>::empty());
        assert(views_of(out@) + Seq::<Seq<u8>>::empty() =~= views_of(out@));
    }
    out
}

/// Is the byte at `j` a word byte?
fn is_word_byte_at(s: &[u8], j: usize) -> (r: bool)
    requires
        j < s@.len(),
    ensures
        r == is_word_byte(s@[j as int]),
{
    let b = s[j];
    (97 <= b && b <= 122) || (65 <= b && b <= 90) || (48 <= b && b <= 57) || b == 95
}

} // verus!

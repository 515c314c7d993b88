//! The mathematical model of scanning: what token starts at each position,
//! and the whole stream of tokens a scanner produces over a text.

use vstd::prelude::*;

use crate::chars::{char_is_whitespace, is_ident_char};
use crate::tokens::TokenModel;

verus! {

/// The first position at or after `p` whose character no longer extends an
/// identifier run (the end of the text counts as such a position).
pub open spec fn ident_run_end(s: Seq<char>, p: int) -> int
    decreases s.len() - p,
{
    if p < s.len() && is_ident_char(s[p]) {
        ident_run_end(s, p + 1)
    } else {
        p
    }
}

/// An identifier run ends no earlier than it starts and no later than the text.
pub proof fn lemma_ident_run_end_bounds(s: Seq<char>, p: int)
    requires
        p <= s.len(),
    ensures
        p <= ident_run_end(s, p) <= s.len(),
    decreases s.len() - p,
{
    if p < s.len() && is_ident_char(s[p]) {
        lemma_ident_run_end_bounds(s, p + 1);
    }
}

/// Every character inside an identifier run is identifier-valid.
pub proof fn lemma_ident_run_end_chars(s: Seq<char>, p: int)
    requires
        p <= s.len(),
    ensures
        forall|k: int| p <= k < ident_run_end(s, p) ==> is_ident_char(s[k]),
    decreases s.len() - p,
{
    if p < s.len() && is_ident_char(s[p]) {
        lemma_ident_run_end_chars(s, p + 1);
    }
}

/// A position `q` that closes a run of identifier-valid characters starting
/// at `p` is exactly where the run ends.
pub proof fn lemma_ident_run_end_determined(s: Seq<char>, p: int, q: int)
    requires
        0 <= p <= q <= s.len(),
        forall|k: int| p <= k < q ==> is_ident_char(s[k]),
        q == s.len() || !is_ident_char(s[q]),
    ensures
        ident_run_end(s, p) == q,
    decreases q - p,
{
    if p < q {
        lemma_ident_run_end_determined(s, p + 1, q);
    }
}

/// One scanning step: the token whose span starts at position `p` of the
/// text, and the position right after that span.
pub struct ScanStep {
    pub token: TokenModel,
    pub end: int,
}

/// The token starting at position `p` of `s`, by the classification order of
/// the scanner: parentheses first, then whitespace, then identifier runs,
/// then the catch-all invalid class; the end marker only where no character
/// remains.
pub open spec fn scan_step(s: Seq<char>, p: int) -> ScanStep {
    if p >= s.len() {
        ScanStep { token: TokenModel::EndOfInput, end: p }
    } else if s[p] == '(' {
        ScanStep { token: TokenModel::OpenParen, end: p + 1 }
    } else if s[p] == ')' {
        ScanStep { token: TokenModel::CloseParen, end: p + 1 }
    } else if char_is_whitespace(s[p]) {
        ScanStep { token: TokenModel::Whitespace, end: p + 1 }
    } else if is_ident_char(s[p]) {
        ScanStep {
            token: TokenModel::Identifier(s.subrange(p, ident_run_end(s, p))),
            end: ident_run_end(s, p),
        }
    } else {
        ScanStep { token: TokenModel::InvalidToken, end: p + 1 }
    }
}

/// As long as characters remain, a scanning step consumes at least one of
/// them and stops within the text.
pub proof fn lemma_scan_step_advances(s: Seq<char>, p: int)
    requires
        0 <= p < s.len(),
    ensures
        p < scan_step(s, p).end <= s.len(),
{
    if !(s[p] == '(' || s[p] == ')' || char_is_whitespace(s[p])) && is_ident_char(s[p]) {
        lemma_ident_run_end_bounds(s, p + 1);
    }
}

/// A token together with the span of source text it stands for.
/// The end marker's text is empty; every other token's text is the exact
/// stretch of input its scanning step consumed.
pub struct ScannedToken {
    pub token: TokenModel,
    pub text: Seq<char>,
}

/// The tokens produced over `s` from position `p` on, each with its source
/// span, closed by the end marker.
pub open spec fn scan_from(s: Seq<char>, p: int) -> Seq<ScannedToken>
    decreases s.len() - p + 1,
        when 0 <= p <= s.len()
        via scan_from_decreases
{
    if p >= s.len() {
        seq![ScannedToken { token: TokenModel::EndOfInput, text: Seq::empty() }]
    } else {
        seq![
            ScannedToken { token: scan_step(s, p).token, text: s.subrange(p, scan_step(s, p).end) },
        ] + scan_from(s, scan_step(s, p).end)
    }
}

#[via_fn]
proof fn scan_from_decreases(s: Seq<char>, p: int) {
    if 0 <= p < s.len() {
        lemma_scan_step_advances(s, p);
    }
}

/// One step of the stream: the first scanned token is the one of the
/// scanning step at `p`, and the rest is the stream from that step's end.
pub proof fn lemma_scan_from_unfold(s: Seq<char>, p: int)
    requires
        0 <= p <= s.len(),
    ensures
        scan_from(s, p).len() >= 1,
        scan_from(s, p)[0].token == scan_step(s, p).token,
        scan_from(s, p)[0].text == s.subrange(p, scan_step(s, p).end),
        p < s.len() ==> scan_from(s, p).drop_first() == scan_from(s, scan_step(s, p).end),
        p == s.len() ==> scan_from(s, p).len() == 1,
{
    if p < s.len() {
        lemma_scan_step_advances(s, p);
        let head = ScannedToken { token: scan_step(s, p).token, text: s.subrange(
            p,
            scan_step(s, p).end,
        ) };
        assert(scan_from(s, p) == seq![head] + scan_from(s, scan_step(s, p).end));
        assert(scan_from(s, p).drop_first() =~= scan_from(s, scan_step(s, p).end));
    } else {
        assert(scan_from(s, p)[0].text =~= s.subrange(p, scan_step(s, p).end));
    }
}

/// The whole token stream of a text, spans included.
pub open spec fn scanned_tokens_of(s: Seq<char>) -> Seq<ScannedToken> {
    scan_from(s, 0)
}

proof fn lemma_scan_from_terminal(s: Seq<char>, p: int)
    requires
        0 <= p <= s.len(),
    ensures
        scan_from(s, p).len() >= 1,
        scan_from(s, p).last().token == TokenModel::EndOfInput,
        forall|i: int|
            0 <= i < scan_from(s, p).len() - 1 ==> scan_from(s, p)[i].token
                != TokenModel::EndOfInput,
    decreases s.len() - p,
{
    if p < s.len() {
        lemma_scan_step_advances(s, p);
        lemma_scan_from_unfold(s, p);
        let q = scan_step(s, p).end;
        lemma_scan_from_terminal(s, q);
        assert(scan_from(s, p).last() == scan_from(s, q).last());
        assert(forall|i: int|
            1 <= i < scan_from(s, p).len() - 1 ==> scan_from(s, p)[i] == scan_from(s, q)[i - 1]);
    }
}

/// Law: over any text, the scanner's stream closes with the end marker —
/// it is the last token, appears exactly once, and nothing follows it.
pub proof fn lemma_end_marker_terminal(s: Seq<char>)
    ensures
        scanned_tokens_of(s).len() >= 1,
        scanned_tokens_of(s).last().token == TokenModel::EndOfInput,
        forall|i: int|
            0 <= i < scanned_tokens_of(s).len() - 1 ==> scanned_tokens_of(s)[i].token
                != TokenModel::EndOfInput,
{
    lemma_scan_from_terminal(s, 0);
}

/// The concatenation of the source spans of a stretch of scanned tokens.
pub open spec fn texts_concat(ts: Seq<ScannedToken>) -> Seq<char>
    decreases ts.len(),
{
    if ts.len() == 0 {
        Seq::empty()
    } else {
        ts[0].text + texts_concat(ts.drop_first())
    }
}

proof fn lemma_scan_from_round_trip(s: Seq<char>, p: int)
    requires
        0 <= p <= s.len(),
    ensures
        texts_concat(scan_from(s, p)) == s.subrange(p, s.len() as int),
    decreases s.len() - p,
{
    lemma_scan_from_unfold(s, p);
    if p == s.len() {
        let rest = scan_from(s, p).drop_first();
        assert(rest =~= Seq::<ScannedToken>::empty());
        assert(texts_concat(rest) == Seq::<char>::empty());
        assert(texts_concat(scan_from(s, p)) =~= s.subrange(p, s.len() as int));
    } else {
        lemma_scan_step_advances(s, p);
        let q = scan_step(s, p).end;
        lemma_scan_from_round_trip(s, q);
        assert(texts_concat(scan_from(s, p)) == s.subrange(p, q) + texts_concat(scan_from(s, q)));
        assert(s.subrange(p, q) + s.subrange(q, s.len() as int) =~= s.subrange(p, s.len() as int));
    }
}

/// Law: concatenating the source spans of every token of a text, in order,
/// reproduces that text exactly (the end marker contributes no text).
pub proof fn lemma_round_trip(s: Seq<char>)
    ensures
        texts_concat(scanned_tokens_of(s)) == s,
{
    lemma_scan_from_round_trip(s, 0);
    assert(s.subrange(0, s.len() as int) =~= s);
}

/// The relation between each produced token and its source span: one
/// character for a parenthesis, a whitespace or an unrecognized character, the
/// exact non-empty identifier-valid run for an identifier, nothing for the
/// end marker — and no literal token at all.
pub open spec fn token_shape_ok(st: ScannedToken) -> bool {
    match st.token {
        TokenModel::OpenParen => st.text == seq!['('],
        TokenModel::CloseParen => st.text == seq![')'],
        TokenModel::Whitespace => {
            &&& st.text.len() == 1
            &&& char_is_whitespace(st.text[0])
            &&& st.text[0] != '(' && st.text[0] != ')'
        },
        TokenModel::Identifier(t) => {
            &&& st.text == t
            &&& t.len() >= 1
            &&& t[0] != '(' && t[0] != ')'
            &&& forall|j: int| 0 <= j < t.len() ==> is_ident_char(t[j])
        },
        TokenModel::Litteral(_) => false,
        TokenModel::InvalidToken => {
            &&& st.text.len() == 1
            &&& st.text[0] != '(' && st.text[0] != ')'
            &&& !char_is_whitespace(st.text[0])
            &&& !is_ident_char(st.text[0])
        },
        TokenModel::EndOfInput => st.text.len() == 0,
    }
}

proof fn lemma_scan_from_shapes(s: Seq<char>, p: int)
    requires
        0 <= p <= s.len(),
    ensures
        forall|i: int| 0 <= i < scan_from(s, p).len() ==> token_shape_ok(scan_from(s, p)[i]),
    decreases s.len() - p,
{
    lemma_scan_from_unfold(s, p);
    if p < s.len() {
        lemma_scan_step_advances(s, p);
        let q = scan_step(s, p).end;
        lemma_scan_from_shapes(s, q);
        assert(token_shape_ok(scan_from(s, p)[0])) by {
            let head = scan_from(s, p)[0];
            if s[p] == '(' {
                assert(head.text =~= seq!['(']);
            } else if s[p] == ')' {
                assert(head.text =~= seq![')']);
            } else if char_is_whitespace(s[p]) {
                assert(head.text.len() == 1 && head.text[0] == s[p]);
            } else if is_ident_char(s[p]) {
                lemma_ident_run_end_bounds(s, p + 1);
                lemma_ident_run_end_chars(s, p);
                assert(head.text =~= s.subrange(p, q));
            } else {
                assert(head.text.len() == 1 && head.text[0] == s[p]);
            }
        }
        assert(forall|i: int|
            1 <= i < scan_from(s, p).len() ==> scan_from(s, p)[i] == scan_from(s, q)[i - 1]);
    }
}

/// Law: every token of every text has the shape [`token_shape_ok`] describes,
/// its source span included.
pub proof fn lemma_token_shapes(s: Seq<char>)
    ensures
        forall|i: int|
            0 <= i < scanned_tokens_of(s).len() ==> token_shape_ok(scanned_tokens_of(s)[i]),
{
    lemma_scan_from_shapes(s, 0);
}

/// Law: an identifier token always carries non-empty text made solely of
/// identifier-valid characters, and that text is exactly its source span.
pub proof fn lemma_identifiers_nonempty_and_valid(s: Seq<char>)
    ensures
        forall|i: int|
            0 <= i < scanned_tokens_of(s).len() ==> ((#[trigger] scanned_tokens_of(s)[i]).token
                matches TokenModel::Identifier(t) ==> {
                &&& scanned_tokens_of(s)[i].text == t
                &&& t.len() >= 1
                &&& forall|j: int| 0 <= j < t.len() ==> is_ident_char(t[j])
            }),
{
    lemma_token_shapes(s);
}

/// Law: a whitespace token always spans exactly one character of source
/// text, and that character is whitespace — runs are never coalesced.
pub proof fn lemma_whitespace_single_char(s: Seq<char>)
    ensures
        forall|i: int|
            0 <= i < scanned_tokens_of(s).len() ==> (scanned_tokens_of(s)[i].token
                == TokenModel::Whitespace ==> scanned_tokens_of(s)[i].text.len() == 1
                && char_is_whitespace(scanned_tokens_of(s)[i].text[0])),
{
    lemma_token_shapes(s);
}

} // verus!

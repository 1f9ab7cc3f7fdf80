//! Text handling: splitting a line into whitespace-separated tokens, and
//! building the messages that the coordinator answers with.
use vstd::prelude::*;
use vstd::string::StringExecFns;
use vstd::string::StrSliceExecFns;
use vstd::string::StringSliceAdditionalSpecFns;

verus! {

/// Whether `c` has the Unicode property `White_Space`, as `char::is_whitespace`
/// decides it.
pub uninterp spec fn is_white_space(c: char) -> bool;

/// Calls `char::is_whitespace`. The answer depends on `c` alone; the contract
/// gives it the name [`is_white_space`] and claims nothing else about it.
#[verifier::external_body]
fn char_is_whitespace(c: char) -> (b: bool)
    ensures
        b == is_white_space(c),
{
    c.is_whitespace()
}

/// `s` the way `{:?}` prints a string: in double quotes, with escapes.
pub uninterp spec fn debug_quoted(s: Seq<char>) -> Seq<char>;

/// Formats `s` with `{:?}`, that is through the standard library's `Debug`
/// for `str`. The text depends on `s` alone; the contract gives it the name
/// [`debug_quoted`] and claims nothing else about it.
#[verifier::external_body]
pub(crate) fn quote(s: &str) -> (r: String)
    ensures
        r@ == debug_quoted(s@),
{
    format!("{:?}", s)
}

/// Whether `a` and `b` are the same text. Two texts are the same exactly
/// when their UTF-8 bytes are, so the bytes are compared.
pub fn same_text(a: &str, b: &str) -> (same: bool)
    ensures
        same == (a@ == b@),
{
    let x = a.as_bytes();
    let y = b.as_bytes();
    proof {
        vstd::utf8::encode_utf8_decode_utf8(a@);
        vstd::utf8::encode_utf8_decode_utf8(b@);
    }
    if x.len() != y.len() {
        return false;
    }
    let mut i: usize = 0;
    while i < x.len()
        invariant
            i <= x@.len(),
            x@.len() == y@.len(),
            x@ == a.spec_bytes(),
            y@ == b.spec_bytes(),
            forall|j: int| 0 <= j < i ==> x@[j] == y@[j],
        decreases x@.len() - i,
    {
        if x[i] != y[i] {
            return false;
        }
        i = i + 1;
    }
    assert(x@ =~= y@);
    true
}

/// `prefix` and `body`, one after the other.
pub fn join2(prefix: &str, body: &str) -> (r: String)
    ensures
        r@ == prefix@ + body@,
{
    let mut r = prefix.to_owned();
    r.append(body);
    r
}

/// `prefix`, `body` and `suffix`, one after the other.
pub fn join3(prefix: &str, body: &str, suffix: &str) -> (r: String)
    ensures
        r@ == prefix@ + body@ + suffix@,
{
    let mut r = prefix.to_owned();
    r.append(body);
    r.append(suffix);
    r
}

/// For each character of `s`, whether it is whitespace.
pub open spec fn whitespace_mask_of(s: Seq<char>) -> Seq<bool> {
    Seq::new(s.len(), |i: int| is_white_space(s[i]))
}

/// Classifies each character of `input` as whitespace or not.
pub fn whitespace_mask(input: &str) -> (mask: Vec<bool>)
    ensures
        mask@ == whitespace_mask_of(input@),
{
    let mut mask: Vec<bool> = Vec::new();
    for c in it: input.chars()
        invariant
            it.seq() == input@,
            mask@ == whitespace_mask_of(input@.take(it.index() as int)),
    {
        let white = char_is_whitespace(c);
        mask.push(white);
        assert(mask@ == whitespace_mask_of(input@.take(it.index() + 1)));
    }
    assert(input@.take(input@.len() as int) == input@);
    mask
}

/// A range of character positions, from `start` up to but without `end`.
#[derive(Clone, Copy, Debug, PartialEq, Eq, Structural)]
pub struct Span {
    pub start: usize,
    pub end: usize,
}

impl Span {
    /// The span as a pair of mathematical integers.
    pub open spec fn bounds(self) -> (int, int) {
        (self.start as int, self.end as int)
    }
}

/// The first position at or after `from` whose entry in `mask` is not `white`,
/// or the length of `mask` if the run of `white` entries lasts to the end.
pub open spec fn skip_run(mask: Seq<bool>, from: int, white: bool) -> int
    decreases mask.len() - from,
{
    if 0 <= from < mask.len() && mask[from] == white {
        skip_run(mask, from + 1, white)
    } else {
        from
    }
}

/// The tokens of the text classified by `mask` that begin at or after `from`,
/// in order: each a maximal run of characters that are not whitespace, given
/// by its first position and the position after its last. After the
/// whitespace at `from` comes a token or the end of the text; where no
/// token comes, the list ends.
pub open spec fn token_spans(mask: Seq<bool>, from: int) -> Seq<(int, int)>
    decreases mask.len() - from,
{
    let start = skip_run(mask, from, true);
    let end = skip_run(mask, start, false);
    if from <= start < end <= mask.len() {
        seq![(start, end)] + token_spans(mask, end)
    } else {
        Seq::empty()
    }
}

/// Where the path stands: the first token, or the empty span at 0 if there is
/// no token.
pub open spec fn path_span(mask: Seq<bool>) -> (int, int) {
    let tokens = token_spans(mask, 0);
    if tokens.len() >= 1 {
        tokens[0]
    } else {
        (0, 0)
    }
}

/// Where the name stands: the last token if there are at least two, else the
/// empty span at 0.
pub open spec fn name_span(mask: Seq<bool>) -> (int, int) {
    let tokens = token_spans(mask, 0);
    if tokens.len() >= 2 {
        tokens.last()
    } else {
        (0, 0)
    }
}

/// The path named by a registration line: its first token, or nothing.
pub open spec fn path_of(line: Seq<char>) -> Seq<char> {
    let span = path_span(whitespace_mask_of(line));
    line.subrange(span.0, span.1)
}

/// The query name given by a registration line: its last token if it has at
/// least two, or nothing.
pub open spec fn name_of(line: Seq<char>) -> Seq<char> {
    let span = name_span(whitespace_mask_of(line));
    line.subrange(span.0, span.1)
}

/// Whether `span` is a word of the text classified by `mask`: a stretch
/// without whitespace that is not empty and cannot be made longer, because
/// on either side of it stands whitespace or nothing.
pub open spec fn is_word(mask: Seq<bool>, span: (int, int)) -> bool {
    &&& 0 <= span.0 < span.1 <= mask.len()
    &&& forall|i: int| span.0 <= i < span.1 ==> !mask[i]
    &&& span.0 == 0 || mask[span.0 - 1]
    &&& span.1 == mask.len() || mask[span.1]
}

/// A run skipped from inside `mask` ends inside `mask` or at its end, on an
/// entry of the other colour, and everything skipped has the colour `white`.
proof fn lemma_skip_run(mask: Seq<bool>, from: int, white: bool)
    requires
        0 <= from <= mask.len(),
    ensures
        from <= skip_run(mask, from, white) <= mask.len(),
        skip_run(mask, from, white) < mask.len() ==> mask[skip_run(mask, from, white)] != white,
        forall|i: int| from <= i < skip_run(mask, from, white) ==> mask[i] == white,
    decreases mask.len() - from,
{
    if from < mask.len() && mask[from] == white {
        lemma_skip_run(mask, from + 1, white);
    }
}

/// The tokens from `from` on are the words from `from` on, where `from` is
/// the beginning of the text or a place that no word reaches across.
proof fn lemma_tokens_from(mask: Seq<bool>, from: int)
    requires
        0 <= from <= mask.len(),
        from == 0 || from == mask.len() || mask[from],
    ensures
        ({
            let tokens = token_spans(mask, from);
            &&& forall|k: int| 0 <= k < tokens.len() ==> is_word(mask, #[trigger] tokens[k]) && from
                <= tokens[k].0
            &&& forall|k: int| 0 <= k < tokens.len() - 1 ==> (#[trigger] tokens[k]).1 < tokens[k + 1].0
            &&& forall|i: int|
                from <= i < mask.len() && !mask[i] ==> exists|k: int|
                    0 <= k < tokens.len() && (#[trigger] tokens[k]).0 <= i < tokens[k].1
        }),
    decreases mask.len() - from,
{
    let tokens = token_spans(mask, from);
    let start = skip_run(mask, from, true);
    lemma_skip_run(mask, from, true);
    lemma_skip_run(mask, start, false);
    let end = skip_run(mask, start, false);
    if start < end {
        let rest = token_spans(mask, end);
        lemma_tokens_from(mask, end);
        assert(tokens == seq![(start, end)] + rest);
        assert(is_word(mask, tokens[0]));
        assert forall|k: int| 0 <= k < tokens.len() implies is_word(mask, #[trigger] tokens[k])
            && from <= tokens[k].0 by {
            if k > 0 {
                assert(tokens[k] == rest[k - 1]);
            }
        }
        assert forall|k: int| 0 <= k < tokens.len() - 1 implies (#[trigger] tokens[k]).1 < tokens[k
            + 1].0 by {
            assert(tokens[k + 1] == rest[k]);
            if k > 0 {
                assert(tokens[k] == rest[k - 1]);
            } else {
                assert(is_word(mask, rest[0]));
            }
        }
        assert forall|i: int| from <= i < mask.len() && !mask[i] implies exists|k: int|
            0 <= k < tokens.len() && (#[trigger] tokens[k]).0 <= i < tokens[k].1 by {
            if i < end {
                assert(tokens[0].0 <= i < tokens[0].1);
            } else {
                let k = choose|k: int| 0 <= k < rest.len() && (#[trigger] rest[k]).0 <= i < rest[k].1;
                assert(tokens[k + 1] == rest[k]);
            }
        }
    } else {
        assert(start == mask.len()) by {
            if start < mask.len() {
                assert(skip_run(mask, start, false) == skip_run(mask, start + 1, false));
                lemma_skip_run(mask, start + 1, false);
            }
        }
    }
}

/// The tokens of a text are its words: each token is a word, the tokens come
/// in the order in which they stand in the text, apart from each other, and
/// every character that is not whitespace lies in one of them.
pub proof fn law_tokens_are_the_words(mask: Seq<bool>)
    ensures
        ({
            let tokens = token_spans(mask, 0);
            &&& forall|k: int| 0 <= k < tokens.len() ==> is_word(mask, #[trigger] tokens[k])
            &&& forall|k: int| 0 <= k < tokens.len() - 1 ==> (#[trigger] tokens[k]).1 < tokens[k + 1].0
            &&& forall|i: int|
                0 <= i < mask.len() && !mask[i] ==> exists|k: int|
                    0 <= k < tokens.len() && (#[trigger] tokens[k]).0 <= i < tokens[k].1
        }),
{
    lemma_tokens_from(mask, 0);
}

/// Steps over the entries of `mask` from `from` on for as long as they equal
/// `white`.
fn advance(mask: &Vec<bool>, from: usize, white: bool) -> (to: usize)
    requires
        from <= mask@.len(),
    ensures
        to == skip_run(mask@, from as int, white),
        from <= to <= mask@.len(),
{
    let mut i: usize = from;
    while i < mask.len() && mask[i] == white
        invariant
            from <= i <= mask@.len(),
            skip_run(mask@, from as int, white) == skip_run(mask@, i as int, white),
        decreases mask@.len() - i,
    {
        i = i + 1;
    }
    i
}

/// Finds the name and the path in a line whose characters `mask` classifies:
/// the path is the first token; the name is the last token when there are two
/// or more, so that of several candidates the last one wins. The result is
/// the pair (name, path); a part that is missing is the empty span at 0.
pub fn locate_name_and_path(mask: &Vec<bool>) -> (spans: (Span, Span))
    ensures
        spans.0.bounds() == name_span(mask@),
        spans.1.bounds() == path_span(mask@),
        spans.0.start <= spans.0.end <= mask@.len(),
        spans.1.start <= spans.1.end <= mask@.len(),
{
    let mut name = Span { start: 0, end: 0 };
    let mut path = Span { start: 0, end: 0 };
    let mut flag = false;
    let mut pos: usize = 0;
    let ghost mut seen: Seq<(int, int)> = Seq::empty();
    loop
        invariant
            pos <= mask@.len(),
            token_spans(mask@, 0) == seen + token_spans(mask@, pos as int),
            flag == (seen.len() >= 1),
            path.bounds() == if seen.len() >= 1 { seen[0] } else { (0, 0) },
            name.bounds() == if seen.len() >= 2 { seen.last() } else { (0, 0) },
            name.start <= name.end <= mask@.len(),
            path.start <= path.end <= mask@.len(),
        ensures
            token_spans(mask@, 0) == seen,
            path.bounds() == if seen.len() >= 1 { seen[0] } else { (0, 0) },
            name.bounds() == if seen.len() >= 2 { seen.last() } else { (0, 0) },
            name.start <= name.end <= mask@.len(),
            path.start <= path.end <= mask@.len(),
        decreases mask@.len() - pos,
    {
        let start = advance(mask, pos, true);
        let end = advance(mask, start, false);
        if start >= end {
            assert(token_spans(mask@, pos as int) == Seq::<(int, int)>::empty());
            assert(seen + Seq::<(int, int)>::empty() == seen);
            break;
        }
        if flag {
            name = Span { start, end };
        } else {
            path = Span { start, end };
            flag = true;
        }
        proof {
            let rest = token_spans(mask@, end as int);
            assert(token_spans(mask@, pos as int) == seq![(start as int, end as int)] + rest);
            assert(seen + (seq![(start as int, end as int)] + rest) == seen.push(
                (start as int, end as int),
            ) + rest);
            seen = seen.push((start as int, end as int));
        }
        pos = end;
    }
    (name, path)
}

/// Splits a registration line of the form `<path> <name>` at whitespace. The
/// first token is the path. Of the tokens after it the last one is the name,
/// so that `a b c` names the query `c`. The result is the pair (name, path);
/// a part for which there is no token is empty.
pub fn parse_name_and_path(line: &str) -> (parts: (&str, &str))
    ensures
        parts.0@ == name_of(line@),
        parts.1@ == path_of(line@),
{
    let mask = whitespace_mask(line);
    let (name, path) = locate_name_and_path(&mask);
    (line.substring_char(name.start, name.end), line.substring_char(path.start, path.end))
}

} // verus!

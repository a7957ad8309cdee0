//! The marker pattern: a regular expression that identifies the positions of
//! a template at which a payload is put.
//!
//! Matching is done by the `regex` crate. The contracts of the three calls
//! below are believed, not proved: each gives the result of one operation of
//! that crate a name, as a function of the pattern's text and of the text
//! that is searched. Putting the payload in is done here, and proved.

use crate::text::views;
use regex::Regex;
use vstd::prelude::*;
use vstd::string::*;

verus! {

/// The marker pattern of a template where no other is asked for.
pub const DEFAULT_PATTERN: &'static str = "§§";

/// Whether `pattern` is accepted as a regular expression.
pub uninterp spec fn marker_compiles(pattern: Seq<char>) -> bool;

/// Whether `pattern` is accepted as a regular expression and matches
/// somewhere in `text`.
pub uninterp spec fn marker_found(pattern: Seq<char>, text: Seq<char>) -> bool;

/// What is left of `text` when the matches of `pattern` in it are cut out:
/// the part before the first match, the parts between one match and the
/// next, and the part after the last match, in their order. It is meaningful
/// where `marker_found(pattern, text)` holds.
pub uninterp spec fn marker_pieces(pattern: Seq<char>, text: Seq<char>) -> Seq<Seq<char>>;

/// The parts of `text` that are no match of the marker. A text in which the
/// marker does not occur is one such part.
pub open spec fn unmarked_parts(pattern: Seq<char>, text: Seq<char>) -> Seq<Seq<char>> {
    if marker_found(pattern, text) {
        marker_pieces(pattern, text)
    } else {
        seq![text]
    }
}

/// The texts `pieces[from..]` written one after the other with `with`
/// between each of them and the next.
pub open spec fn filled(pieces: Seq<Seq<char>>, with: Seq<char>, from: int) -> Seq<char>
    decreases pieces.len() - from,
{
    if from < 0 || from >= pieces.len() {
        Seq::empty()
    } else if from == pieces.len() - 1 {
        pieces[from]
    } else {
        pieces[from] + with + filled(pieces, with, from + 1)
    }
}

/// `text` with `with`, as it stands, in the place of each match of the
/// marker.
pub open spec fn substituted(pattern: Seq<char>, text: Seq<char>, with: Seq<char>) -> Seq<char> {
    filled(unmarked_parts(pattern, text), with, 0)
}

/// Where the piece `k` begins in the filled text.
pub open spec fn piece_start(pieces: Seq<Seq<char>>, with: Seq<char>, k: int) -> int
    decreases k,
{
    if k <= 0 {
        0
    } else {
        piece_start(pieces, with, k - 1) + pieces[k - 1].len() + with.len()
    }
}

/// Calls `Regex::new` and reports whether it accepted the pattern.
#[verifier::external_body]
pub(crate) fn compiles(pattern: &str) -> (ok: bool)
    ensures
        ok == marker_compiles(pattern@),
{
    Regex::new(pattern).is_ok()
}

/// Compiles the pattern with `Regex::new` and calls `Regex::is_match` on
/// it: whether the pattern matches anywhere in `text`. A pattern that
/// `Regex::new` does not accept is found nowhere.
#[verifier::external_body]
pub(crate) fn occurs_in(pattern: &str, text: &str) -> (found: bool)
    ensures
        found == marker_found(pattern@, text@),
{
    match Regex::new(pattern) {
        Ok(re) => re.is_match(text),
        Err(_) => false,
    }
}

/// Compiles the pattern with `Regex::new` and calls `Regex::split` on it,
/// which hands out the parts of the text between the matches. The result
/// has a name; the one thing claimed of it is what the source of the crate
/// shows: where there is no match, the whole text is the one part. So it is
/// for a pattern that `Regex::new` does not accept.
#[verifier::external_body]
pub(crate) fn split_at_marker(pattern: &str, text: &str) -> (pieces: Vec<String>)
    ensures
        views(pieces@) == (if marker_found(pattern@, text@) {
            marker_pieces(pattern@, text@)
        } else {
            seq![text@]
        }),
{
    match Regex::new(pattern) {
        Ok(re) => re.split(text).map(|piece| piece.to_string()).collect(),
        Err(_) => vec![text.to_string()],
    }
}

/// Writes the pieces one after the other with `with` between each of them
/// and the next.
pub fn fill(pieces: &Vec<String>, with: &str) -> (out: String)
    ensures
        out@ == filled(views(pieces@), with@, 0),
{
    let mut out = String::new();
    let mut i: usize = 0;
    while i < pieces.len()
        invariant
            i <= pieces.len(),
            out@ + filled(views(pieces@), with@, i as int) == filled(views(pieces@), with@, 0),
        decreases pieces.len() - i,
    {
        let ghost before = out@;
        let ghost rest = filled(views(pieces@), with@, i + 1);
        proof {
            assert(views(pieces@)[i as int] == pieces@[i as int]@);
        }
        out.append(pieces[i].as_str());
        if i + 1 < pieces.len() {
            out.append(with);
            proof {
                assert(before + (pieces@[i as int]@ + with@ + rest) =~= (before + pieces@[i as int]@
                    + with@) + rest);
            }
        } else {
            proof {
                assert(rest =~= Seq::<char>::empty());
                assert((before + pieces@[i as int]@) + rest =~= before + pieces@[i as int]@);
            }
        }
        i += 1;
    }
    proof {
        assert(out@ + Seq::<char>::empty() =~= out@);
    }
    out
}

/// Puts `with`, as it stands, in the place of each match of the marker in
/// `text`.
pub fn substitute(pattern: &str, text: &str, with: &str) -> (out: String)
    ensures
        out@ == substituted(pattern@, text@, with@),
{
    let pieces = split_at_marker(pattern, text);
    fill(&pieces, with)
}

proof fn lemma_filled_from(pieces: Seq<Seq<char>>, with: Seq<char>, from: int, k: int)
    requires
        0 <= from <= k < pieces.len(),
    ensures
        ({
            let text = filled(pieces, with, from);
            let at = piece_start(pieces, with, k) - piece_start(pieces, with, from);
            &&& 0 <= at
            &&& at + pieces[k].len() <= text.len()
            &&& text.subrange(at, at + pieces[k].len()) == pieces[k]
            &&& k < pieces.len() - 1 ==> at + pieces[k].len() + with.len() <= text.len()
                && text.subrange(at + pieces[k].len(), at + pieces[k].len() + with.len()) == with
            &&& text.len() == piece_start(pieces, with, pieces.len() - 1) - piece_start(
                pieces,
                with,
                from,
            ) + pieces[pieces.len() - 1].len()
        }),
    decreases pieces.len() - from,
{
    let text = filled(pieces, with, from);
    if from == pieces.len() - 1 {
        assert(text.subrange(0, pieces[k].len() as int) =~= pieces[k]);
    } else {
        let rest = filled(pieces, with, from + 1);
        let shift = pieces[from].len() + with.len();
        assert(piece_start(pieces, with, from + 1) == piece_start(pieces, with, from) + shift);
        lemma_filled_from(pieces, with, from + 1, pieces.len() - 1);
        if k == from {
            assert(text.subrange(0, pieces[k].len() as int) =~= pieces[k]);
            assert(text.subrange(pieces[k].len() as int, (pieces[k].len() + with.len()) as int)
                =~= with);
        } else {
            lemma_filled_from(pieces, with, from + 1, k);
            let at = piece_start(pieces, with, k) - piece_start(pieces, with, from + 1);
            assert(text.subrange(shift + at, shift + at + pieces[k].len()) =~= rest.subrange(
                at,
                at + pieces[k].len(),
            ));
            if k < pieces.len() - 1 {
                assert(text.subrange(
                    shift + at + pieces[k].len(),
                    shift + at + pieces[k].len() + with.len(),
                ) =~= rest.subrange(at + pieces[k].len(), at + pieces[k].len() + with.len()));
            }
        }
    }
}

/// What a filled text holds: every piece, as it stands, at its place, and
/// between each piece and the next the text `with`, as it stands and once;
/// nothing comes before the first piece and nothing after the last. So the
/// payload stands exactly once in the place of each match of the marker.
pub proof fn lemma_filled(pieces: Seq<Seq<char>>, with: Seq<char>, k: int)
    requires
        0 <= k < pieces.len(),
    ensures
        ({
            let text = filled(pieces, with, 0);
            let at = piece_start(pieces, with, k);
            &&& 0 <= at
            &&& at + pieces[k].len() <= text.len()
            &&& text.subrange(at, at + pieces[k].len()) == pieces[k]
            &&& k < pieces.len() - 1 ==> piece_start(pieces, with, k + 1) <= text.len()
                && text.subrange(at + pieces[k].len(), piece_start(pieces, with, k + 1)) == with
            &&& text.len() == piece_start(pieces, with, pieces.len() - 1) + pieces[pieces.len()
                - 1].len()
        }),
{
    lemma_filled_from(pieces, with, 0, k);
    if k < pieces.len() - 1 {
        lemma_filled_from(pieces, with, 0, k + 1);
    }
}

/// A text in which the marker does not occur stays as it is, whatever is
/// put in.
pub proof fn lemma_substituted_unmarked(pattern: Seq<char>, text: Seq<char>, with: Seq<char>)
    requires
        !marker_found(pattern, text),
    ensures
        substituted(pattern, text, with) == text,
{
}

} // verus!

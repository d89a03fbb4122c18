//! Form bodies and query strings: `key=value` pairs joined by `&`.

use vstd::prelude::*;
use vstd::string::*;
use crate::text::{find_char, first_index_of, lemma_split_pieces_nonempty, split_pieces};

verus! {

/// The key and value of a piece, split at its first `=`; `None` where it has none.
pub open spec fn pair_of(piece: Seq<char>) -> Option<(Seq<char>, Seq<char>)> {
    match first_index_of(piece, '=') {
        Some(i) => Some((piece.subrange(0, i), piece.subrange(i + 1, piece.len() as int))),
        None => None,
    }
}

/// The pairs of the pieces that hold a `=`, in order.
pub open spec fn pairs_of(ps: Seq<Seq<char>>) -> Seq<(Seq<char>, Seq<char>)>
    decreases ps.len(),
{
    if ps.len() == 0 {
        Seq::empty()
    } else {
        let init = pairs_of(ps.drop_last());
        match pair_of(ps.last()) {
            Some(p) => init.push(p),
            None => init,
        }
    }
}

/// The pairs that a form body holds, in order. A later pair with the same
/// key as an earlier one stands after it.
pub open spec fn form_pairs(s: Seq<char>) -> Seq<(Seq<char>, Seq<char>)> {
    pairs_of(split_pieces(s, '&'))
}

/// What a sequence of owned pairs holds.
pub open spec fn pair_texts(v: Seq<(String, String)>) -> Seq<(Seq<char>, Seq<char>)> {
    Seq::new(v.len(), |i: int| (v[i].0@, v[i].1@))
}

fn piece_pair(piece: &str) -> (r: Option<(String, String)>)
    ensures
        match r {
            Some(p) => pair_of(piece@) == Some((p.0@, p.1@)),
            None => pair_of(piece@) is None,
        },
{
    match find_char(piece, '=') {
        Some(i) => {
            let n = piece.unicode_len();
            let key = piece.substring_char(0, i).to_owned();
            let value = piece.substring_char(i + 1, n).to_owned();
            Some((key, value))
        },
        None => None,
    }
}

/// Reads the `key=value` pairs of a form body, in order; pieces without `=`
/// are skipped.
pub fn parse_urlencoded(value: &str) -> (r: Vec<(String, String)>)
    ensures
        pair_texts(r@) == form_pairs(value@),
{
    let n = value.unicode_len();
    let mut out: Vec<(String, String)> = Vec::new();
    let mut current = String::new();
    let mut i: usize = 0;
    while i < n
        invariant
            n == value@.len(),
            i <= n,
            split_pieces(value@.subrange(0, i as int), '&').len() >= 1,
            split_pieces(value@.subrange(0, i as int), '&').last() == current@,
            pair_texts(out@) == pairs_of(split_pieces(value@.subrange(0, i as int), '&').drop_last()),
        decreases n - i,
    {
        let ghost prefix = value@.subrange(0, i as int);
        let ghost next = value@.subrange(0, i + 1);
        assert(next.drop_last() =~= prefix);
        let c = value.get_char(i);
        proof {
            lemma_split_pieces_nonempty(prefix, '&');
        }
        if c == '&' {
            let ghost before = out@;
            match piece_pair(current.as_str()) {
                Some(p) => {
                    out.push(p);
                    assert(pair_texts(out@) =~= pair_texts(before).push((p.0@, p.1@)));
                },
                None => {},
            }
            proof {
                let p = split_pieces(prefix, '&');
                assert(split_pieces(next, '&').drop_last() =~= p);
            }
            current = String::new();
        } else {
            let piece = String::from_str(value.substring_char(i, i + 1));
            current.append(piece.as_str());
            proof {
                let p = split_pieces(prefix, '&');
                assert(split_pieces(next, '&').drop_last() =~= p.drop_last());
            }
        }
        i = i + 1;
    }
    assert(value@.subrange(0, n as int) =~= value@);
    proof {
        lemma_split_pieces_nonempty(value@, '&');
    }
    let ghost before = out@;
    match piece_pair(current.as_str()) {
        Some(p) => {
            out.push(p);
            assert(pair_texts(out@) =~= pair_texts(before).push((p.0@, p.1@)));
        },
        None => {},
    }
    out
}

} // verus!

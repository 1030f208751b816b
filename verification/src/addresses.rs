//! Parsing of comma-separated recipient lists such as
//! `plain@example.com, Named User <named@example.com>`.
use crate::models::EmailAddress;
use crate::text::{
    chars_of, find_char, first_index, lemma_first_index, slice_chars, split_chars, split_on, string_of_range,
    trim, trim_bounds, trimmed,
};
use vstd::prelude::*;

verus! {

/// The address one trimmed, non-empty piece of a list stands for. A piece
/// with both `<` and `>` is `name <email>`, the name being optional; any other
/// piece is a bare address.
pub open spec fn address_of_piece(s: Seq<char>) -> (Option<Seq<char>>, Seq<char>) {
    match (first_index(s, '<'), first_index(s, '>')) {
        (Some(a), Some(b)) => {
            let name = trim(s.subrange(0, a));
            (if name.len() == 0 { None } else { Some(name) }, trim(s.subrange(a + 1, b)))
        },
        _ => (None, s),
    }
}

/// Whether a trimmed piece can be read: when it has both brackets, the first
/// `>` comes after the first `<`.
pub open spec fn piece_readable(s: Seq<char>) -> bool {
    match (first_index(s, '<'), first_index(s, '>')) {
        (Some(a), Some(b)) => a < b,
        _ => true,
    }
}

/// The addresses of the comma-separated pieces `ps`, in order; pieces that
/// are blank once trimmed are skipped.
pub open spec fn addresses_of_pieces(ps: Seq<Seq<char>>) -> Seq<(Option<Seq<char>>, Seq<char>)>
    decreases ps.len(),
{
    if ps.len() == 0 {
        Seq::empty()
    } else {
        let prev = addresses_of_pieces(ps.drop_last());
        let t = trim(ps.last());
        if t.len() == 0 {
            prev
        } else {
            prev.push(address_of_piece(t))
        }
    }
}

/// The addresses a comma-separated list stands for.
pub open spec fn addresses_of(input: Seq<char>) -> Seq<(Option<Seq<char>>, Seq<char>)> {
    addresses_of_pieces(split_on(input, ','))
}

/// Whether every piece of a comma-separated list can be read.
pub open spec fn list_readable(input: Seq<char>) -> bool {
    forall|i: int|
        0 <= i < split_on(input, ',').len() ==> piece_readable(
            trim(#[trigger] split_on(input, ',')[i]),
        )
}

/// The address one trimmed, non-empty piece stands for.
fn parse_piece(p: &[char]) -> (a: EmailAddress)
    requires
        piece_readable(p@),
    ensures
        a@ == address_of_piece(p@),
{
    match (find_char(p, '<'), find_char(p, '>')) {
        (Some(start), Some(end)) => {
            proof {
                lemma_first_index(p@, '<');
                lemma_first_index(p@, '>');
            }
            let before = slice_chars(p, 0, start);
            let inside = slice_chars(p, start + 1, end);
            let (na, nb) = trim_bounds(before.as_slice(), false);
            let (ea, eb) = trim_bounds(inside.as_slice(), false);
            let name = if na == nb {
                None
            } else {
                Some(string_of_range(before.as_slice(), na, nb))
            };
            EmailAddress { name, email: string_of_range(inside.as_slice(), ea, eb) }
        },
        _ => EmailAddress { name: None, email: string_of_range(p, 0, p.len()) },
    }
}

/// Whether every piece of a comma-separated list can be read by
/// [`parse_addresses`].
pub fn addresses_readable(input: &str) -> (b: bool)
    ensures
        b == list_readable(input@),
{
    let cs = chars_of(input);
    let pieces = split_chars(cs.as_slice(), ',');
    let mut i: usize = 0;
    while i < pieces.len()
        invariant
            i <= pieces@.len(),
            pieces.deep_view() == split_on(input@, ','),
            cs@ == input@,
            forall|j: int| 0 <= j < i ==> piece_readable(trim(#[trigger] split_on(input@, ',')[j])),
        decreases pieces@.len() - i,
    {
        let t = trimmed(pieces[i].as_slice());
        proof {
            assert(pieces@[i as int]@ =~= pieces.deep_view()[i as int]);
        }
        let lt = find_char(t.as_slice(), '<');
        let gt = find_char(t.as_slice(), '>');
        match (lt, gt) {
            (Some(a), Some(b)) => {
                if a >= b {
                    return false;
                }
            },
            _ => {},
        }
        i += 1;
    }
    true
}

/// The addresses of a comma-separated list, in order. Each piece is
/// trimmed; blank pieces are skipped; `Name <email>` gives a named address,
/// `<email>` and anything without brackets an unnamed one.
pub fn parse_addresses(input: &str) -> (out: Vec<EmailAddress>)
    requires
        list_readable(input@),
    ensures
        out@.len() == addresses_of(input@).len(),
        forall|i: int| 0 <= i < out@.len() ==> (#[trigger] out@[i])@ == addresses_of(input@)[i],
{
    let cs = chars_of(input);
    let pieces = split_chars(cs.as_slice(), ',');
    let ghost ps = split_on(input@, ',');
    let mut out: Vec<EmailAddress> = Vec::new();
    let mut i: usize = 0;
    while i < pieces.len()
        invariant
            i <= pieces@.len(),
            pieces.deep_view() == ps,
            ps == split_on(input@, ','),
            list_readable(input@),
            out@.len() == addresses_of_pieces(ps.take(i as int)).len(),
            forall|j: int|
                0 <= j < out@.len() ==> (#[trigger] out@[j])@ == addresses_of_pieces(
                    ps.take(i as int),
                )[j],
        decreases pieces@.len() - i,
    {
        proof {
            assert(pieces@[i as int]@ =~= ps[i as int]);
            assert(ps.take(i + 1).drop_last() =~= ps.take(i as int));
            assert(ps.take(i + 1).last() == ps[i as int]);
        }
        let t = trimmed(pieces[i].as_slice());
        if t.len() > 0 {
            let a = parse_piece(t.as_slice());
            out.push(a);
        }
        i += 1;
    }
    proof {
        assert(ps.take(ps.len() as int) =~= ps);
    }
    out
}

} // verus!

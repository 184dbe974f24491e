use vstd::prelude::*;

use vstd::slice::slice_subrange;
use vstd::slice::slice_to_vec;
use vstd::utf8::decode_utf8;
use vstd::utf8::valid_utf8;

use crate::context::RenameSubmission;
use crate::errors::ServiceError;

verus! {

// A posted form body's grammar, as the rename endpoint consumes it: pieces
// separated by `&`, each split at its first `=` into key and value, both
// percent-decoded, with `+` meaning a space and an invalid escape passing
// through literally.
/// An ASCII hexadecimal digit.
pub open spec fn is_hex_digit(b: u8) -> bool {
    (48 <= b <= 57) || (65 <= b <= 70) || (97 <= b <= 102)
}

/// The numeric value of an ASCII hexadecimal digit.
pub open spec fn hex_value(b: u8) -> u8 {
    if 48 <= b <= 57 {
        (b - 48) as u8
    } else if 65 <= b <= 70 {
        (b - 55) as u8
    } else {
        (b - 87) as u8
    }
}

/// Percent-decoding: `+` becomes a space, `%` followed by two hexadecimal
/// digits becomes that byte, and anything else - an invalid escape included -
/// passes through unchanged.
pub open spec fn pct_decode(s: Seq<u8>) -> Seq<u8>
    decreases s.len(),
{
    if s.len() == 0 {
        Seq::empty()
    } else if s[0] == 43 {
        seq![32u8] + pct_decode(s.skip(1))
    } else if s[0] == 37 && s.len() >= 3 && is_hex_digit(s[1]) && is_hex_digit(s[2]) {
        seq![((hex_value(s[1]) * 16 + hex_value(s[2])) as u8)] + pct_decode(s.skip(3))
    } else {
        seq![s[0]] + pct_decode(s.skip(1))
    }
}

/// The index of the first occurrence of a byte, or the length if absent.
pub open spec fn find_sep(s: Seq<u8>, sep: u8) -> int
    decreases s.len(),
{
    if s.len() == 0 {
        0
    } else if s[0] == sep {
        0
    } else {
        1 + find_sep(s.skip(1), sep)
    }
}

/// What characterizes `find_sep`: in range, a hit if in bounds, no earlier hit.
pub proof fn lemma_find_sep(s: Seq<u8>, sep: u8)
    ensures
        0 <= find_sep(s, sep) <= s.len(),
        find_sep(s, sep) < s.len() ==> s[find_sep(s, sep)] == sep,
        forall|j: int| 0 <= j < find_sep(s, sep) ==> s[j] != sep,
    decreases s.len(),
{
    if s.len() > 0 && s[0] != sep {
        lemma_find_sep(s.skip(1), sep);
        assert forall|j: int| 0 <= j < find_sep(s, sep) implies s[j] != sep by {
            if j > 0 {
                assert(s.skip(1)[j - 1] == s[j]);
            }
        }
    }
}

/// Any index with the characterizing properties is `find_sep`.
pub proof fn lemma_find_sep_is(s: Seq<u8>, sep: u8, i: int)
    requires
        0 <= i <= s.len(),
        i < s.len() ==> s[i] == sep,
        forall|j: int| 0 <= j < i ==> s[j] != sep,
    ensures
        find_sep(s, sep) == i,
    decreases s.len(),
{
    if s.len() > 0 && s[0] != sep {
        assert(i > 0);
        assert forall|j: int| 0 <= j < i - 1 implies s.skip(1)[j] != sep by {
            assert(s.skip(1)[j] == s[j + 1]);
        }
        assert(i - 1 < s.skip(1).len() ==> s.skip(1)[i - 1] == sep);
        lemma_find_sep_is(s.skip(1), sep, i - 1);
    }
}

/// The pieces of a form body: split on `&`, keeping empty pieces.
pub open spec fn split_pieces(s: Seq<u8>) -> Seq<Seq<u8>>
    decreases s.len(),
    via split_pieces_decreases
{
    let i = find_sep(s, 38);
    if i == s.len() {
        seq![s]
    } else {
        seq![s.take(i)] + split_pieces(s.skip(i + 1))
    }
}

#[via_fn]
proof fn split_pieces_decreases(s: Seq<u8>) {
    lemma_find_sep(s, 38);
}

/// A piece's key: everything before its first `=`.
pub open spec fn piece_key(p: Seq<u8>) -> Seq<u8> {
    p.take(find_sep(p, 61))
}

/// A piece's value: everything after its first `=`, or empty without one.
pub open spec fn piece_value(p: Seq<u8>) -> Seq<u8> {
    if find_sep(p, 61) == p.len() {
        Seq::empty()
    } else {
        p.skip(find_sep(p, 61) + 1)
    }
}

/// The bytes of the one field the rename endpoint reads.
pub open spec fn name_key() -> Seq<u8> {
    seq![110u8, 97u8, 109u8, 101u8]
}

/// Whether a piece's decoded key is exactly `name`.
pub open spec fn is_name_piece(p: Seq<u8>) -> bool {
    pct_decode(piece_key(p)) == name_key()
}

/// The decoded values of every `name` piece, in order of appearance.
pub open spec fn name_values(pieces: Seq<Seq<u8>>) -> Seq<Seq<u8>>
    decreases pieces.len(),
{
    if pieces.len() == 0 {
        Seq::empty()
    } else {
        let rest = name_values(pieces.drop_first());
        if is_name_piece(pieces[0]) {
            seq![pct_decode(piece_value(pieces[0]))] + rest
        } else {
            rest
        }
    }
}

/// What decoding a rename submission yields: the decoded `name` value when
/// the body carries that field exactly once and its bytes are valid UTF-8,
/// nothing otherwise (absent field, repeated field, or bad encoding).
pub open spec fn spec_parse_rename(body: Seq<u8>) -> Option<Seq<char>> {
    let vs = name_values(split_pieces(body));
    if vs.len() == 1 && valid_utf8(vs[0]) {
        Some(decode_utf8(vs[0]))
    } else {
        None
    }
}

/// An ASCII hexadecimal digit's value, or 255 for any other byte.
fn hex_value_of(b: u8) -> (r: u8)
    ensures
        is_hex_digit(b) ==> r == hex_value(b),
        !is_hex_digit(b) ==> r == 255,
{
    if 48 <= b && b <= 57 {
        b - 48
    } else if 65 <= b && b <= 70 {
        b - 55
    } else if 97 <= b && b <= 102 {
        b - 87
    } else {
        255
    }
}

/// One unfolding step of `pct_decode` at an offset.
proof fn lemma_pct_step(s: Seq<u8>, i: int)
    requires
        0 <= i < s.len(),
    ensures
        s[i] == 43 ==> pct_decode(s.skip(i)) == seq![32u8] + pct_decode(s.skip(i + 1)),
        (s[i] == 37 && i + 3 <= s.len() && is_hex_digit(s[i + 1]) && is_hex_digit(s[i + 2]))
            ==> pct_decode(s.skip(i)) == seq![((hex_value(s[i + 1]) * 16 + hex_value(
            s[i + 2],
        )) as u8)] + pct_decode(s.skip(i + 3)),
        (s[i] != 43 && !(s[i] == 37 && i + 3 <= s.len() && is_hex_digit(s[i + 1]) && is_hex_digit(
            s[i + 2],
        ))) ==> pct_decode(s.skip(i)) == seq![s[i]] + pct_decode(s.skip(i + 1)),
{
    let t = s.skip(i);
    assert(t.len() == s.len() - i);
    assert(t[0] == s[i]);
    if t.len() >= 2 {
        assert(t[1] == s[i + 1]);
    }
    if t.len() >= 3 {
        assert(t[2] == s[i + 2]);
    }
    assert(t.skip(1) =~= s.skip(i + 1));
    if i + 3 <= s.len() {
        assert(t.skip(3) =~= s.skip(i + 3));
    }
}

/// Percent-decode a byte string, as `pct_decode` describes.
pub fn pct_decode_bytes(s: &[u8]) -> (r: Vec<u8>)
    ensures
        r@ == pct_decode(s@),
{
    let n = s.len();
    let mut out: Vec<u8> = Vec::new();
    let mut i: usize = 0;
    proof {
        assert(s@.skip(0) =~= s@);
        assert(out@ + pct_decode(s@.skip(0)) =~= pct_decode(s@));
    }
    while i < n
        invariant
            n == s@.len(),
            0 <= i <= n,
            out@ + pct_decode(s@.skip(i as int)) == pct_decode(s@),
        decreases n - i,
    {
        let ghost pre = out@;
        let ghost i0 = i as int;
        proof {
            lemma_pct_step(s@, i0);
        }
        let b = s[i];
        if b == 43 {
            out.push(32);
            i += 1;
        } else if b == 37 && n - i > 2 {
            let h1 = hex_value_of(s[i + 1]);
            let h2 = hex_value_of(s[i + 2]);
            if h1 != 255 && h2 != 255 {
                out.push(h1 * 16 + h2);
                i += 3;
            } else {
                out.push(37);
                i += 1;
            }
        } else {
            out.push(b);
            i += 1;
        }
        proof {
            assert(out@ + pct_decode(s@.skip(i as int)) =~= pre + pct_decode(s@.skip(i0)));
        }
    }
    proof {
        assert(s@.skip(n as int) =~= Seq::<u8>::empty());
        assert(pct_decode(Seq::<u8>::empty()) =~= Seq::<u8>::empty());
        assert(out@ =~= pct_decode(s@));
    }
    out
}

/// The first occurrence of a byte at or after an offset, or the length.
fn find_byte(s: &[u8], from: usize, target: u8) -> (r: usize)
    requires
        from <= s@.len(),
    ensures
        from <= r <= s@.len(),
        r < s@.len() ==> s@[r as int] == target,
        forall|j: int| from <= j < r ==> s@[j] != target,
{
    let n = s.len();
    let mut i = from;
    while i < n
        invariant
            from <= i <= n,
            n == s@.len(),
            forall|j: int| from <= j < i ==> s@[j] != target,
        decreases n - i,
    {
        if s[i] == target {
            return i;
        }
        i += 1;
    }
    n
}

/// Split a form body on `&` into its pieces.
fn split_form(body: &[u8]) -> (r: Vec<Vec<u8>>)
    ensures
        r@.map_values(|v: Vec<u8>| v@) == split_pieces(body@),
{
    let n = body.len();
    let mut pieces: Vec<Vec<u8>> = Vec::new();
    let mut start: usize = 0;
    let mut finished = false;
    proof {
        assert(body@.skip(0) =~= body@);
        assert(pieces@.map_values(|v: Vec<u8>| v@) + split_pieces(body@.skip(0)) =~= split_pieces(
            body@,
        ));
    }
    while !finished
        invariant
            n == body@.len(),
            !finished ==> 0 <= start <= n,
            !finished ==> pieces@.map_values(|v: Vec<u8>| v@) + split_pieces(
                body@.skip(start as int),
            ) == split_pieces(body@),
            finished ==> pieces@.map_values(|v: Vec<u8>| v@) == split_pieces(body@),
        decreases (if finished {
            0int
        } else {
            n - start + 1
        }),
    {
        let end = find_byte(body, start, 38);
        let ghost t = body@.skip(start as int);
        proof {
            lemma_find_sep_is(t, 38, end as int - start as int);
            assert forall|j: int| start <= j < end implies body@[j] != 38 by {}
            assert(t.take(end as int - start as int) =~= body@.subrange(start as int, end as int));
        }
        let piece = slice_to_vec(slice_subrange(body, start, end));
        let ghost prev = pieces@.map_values(|v: Vec<u8>| v@);
        pieces.push(piece);
        proof {
            assert(pieces@.map_values(|v: Vec<u8>| v@) =~= prev.push(
                body@.subrange(start as int, end as int),
            ));
        }
        if end == n {
            proof {
                assert(find_sep(t, 38) == t.len());
                assert(split_pieces(t) =~= seq![t]);
                assert(t =~= body@.subrange(start as int, end as int));
                assert(pieces@.map_values(|v: Vec<u8>| v@) =~= prev + seq![t]);
                assert(pieces@.map_values(|v: Vec<u8>| v@) =~= split_pieces(body@));
            }
            finished = true;
        } else {
            proof {
                assert(find_sep(t, 38) == end as int - start as int);
                assert(find_sep(t, 38) < t.len());
                assert(split_pieces(t) == seq![t.take(end as int - start as int)] + split_pieces(
                    t.skip(end as int - start as int + 1),
                ));
                assert(t.skip(end as int - start as int + 1) =~= body@.skip(end + 1));
                assert(pieces@.map_values(|v: Vec<u8>| v@) + split_pieces(body@.skip(end + 1))
                    =~= split_pieces(body@));
            }
            start = end + 1;
        }
    }
    pieces
}

/// Split one piece at its first `=` into undecoded key and value.
fn piece_parts(p: &Vec<u8>) -> (r: (Vec<u8>, Vec<u8>))
    ensures
        r.0@ == piece_key(p@),
        r.1@ == piece_value(p@),
{
    let n = p.len();
    let eq = find_byte(p.as_slice(), 0, 61);
    proof {
        lemma_find_sep_is(p@, 61, eq as int);
    }
    let key = slice_to_vec(slice_subrange(p.as_slice(), 0, eq));
    proof {
        assert(p@.subrange(0, eq as int) =~= p@.take(eq as int));
    }
    if eq == n {
        let empty: Vec<u8> = Vec::new();
        (key, empty)
    } else {
        let value = slice_to_vec(slice_subrange(p.as_slice(), eq + 1, n));
        proof {
            assert(p@.subrange(eq as int + 1, n as int) =~= p@.skip(eq as int + 1));
        }
        (key, value)
    }
}

/// Whether two byte vectors hold the same bytes.
fn bytes_eq(a: &Vec<u8>, b: &Vec<u8>) -> (r: bool)
    ensures
        r == (a@ == b@),
{
    if a.len() != b.len() {
        proof {
            assert(a@ != b@);
        }
        return false;
    }
    let n = a.len();
    let mut i: usize = 0;
    while i < n
        invariant
            0 <= i <= n,
            n == a@.len() == b@.len(),
            forall|j: int| 0 <= j < i ==> a@[j] == b@[j],
        decreases n - i,
    {
        if a[i] != b[i] {
            return false;
        }
        i += 1;
    }
    proof {
        assert(a@ =~= b@);
    }
    true
}

/// The `name` key as bytes.
fn name_key_bytes() -> (r: Vec<u8>)
    ensures
        r@ == name_key(),
{
    let mut v: Vec<u8> = Vec::new();
    v.push(110);
    v.push(97);
    v.push(109);
    v.push(101);
    proof {
        assert(v@ =~= name_key());
    }
    v
}

/// Relies on `String::from_utf8`: it succeeds exactly on valid UTF-8 and
/// yields the decoded characters, as vstd's UTF-8 model states them.
#[verifier::external_body]
fn bytes_to_string(bytes: Vec<u8>) -> (r: Option<String>)
    ensures
        r is Some <==> valid_utf8(bytes@),
        r matches Some(s) ==> s@ == decode_utf8(bytes@),
{
    match String::from_utf8(bytes) {
        Ok(s) => Some(s),
        Err(_) => None,
    }
}

/// Decode a rename submission from a form-encoded body: the `name` field,
/// required exactly once, percent-decoded and read as UTF-8. Fails with
/// `FormDecodeError` - bad client input, never a server fault - exactly when
/// `spec_parse_rename` yields nothing.
pub fn parse_rename_form(body: &[u8]) -> (r: Result<RenameSubmission, ServiceError>)
    ensures
        r matches Ok(s) <==> spec_parse_rename(body@) is Some,
        r matches Ok(s) ==> s.name@ == spec_parse_rename(body@)->0,
        r matches Err(e) ==> e == ServiceError::FormDecodeError,
{
    let pieces = split_form(body);
    let wanted = name_key_bytes();
    let ghost all = pieces@.map_values(|v: Vec<u8>| v@);
    let mut hits: Vec<Vec<u8>> = Vec::new();
    let mut i: usize = 0;
    proof {
        assert(all.skip(0) =~= all);
        assert(hits@.map_values(|v: Vec<u8>| v@) + name_values(all.skip(0)) =~= name_values(all));
    }
    while i < pieces.len()
        invariant
            0 <= i <= pieces@.len(),
            all == pieces@.map_values(|v: Vec<u8>| v@),
            wanted@ == name_key(),
            hits@.map_values(|v: Vec<u8>| v@) + name_values(all.skip(i as int)) == name_values(
                all,
            ),
        decreases pieces@.len() - i,
    {
        let ghost rest = all.skip(i as int);
        proof {
            assert(rest.len() > 0);
            assert(rest[0] == pieces@[i as int]@);
            assert(rest.drop_first() =~= all.skip(i as int + 1));
        }
        let (key, value) = piece_parts(&pieces[i]);
        let decoded_key = pct_decode_bytes(key.as_slice());
        let ghost prev = hits@.map_values(|v: Vec<u8>| v@);
        if bytes_eq(&decoded_key, &wanted) {
            let decoded_value = pct_decode_bytes(value.as_slice());
            hits.push(decoded_value);
            proof {
                assert(is_name_piece(rest[0]));
                assert(hits@.map_values(|v: Vec<u8>| v@) =~= prev.push(
                    pct_decode(piece_value(rest[0])),
                ));
                assert(hits@.map_values(|v: Vec<u8>| v@) + name_values(all.skip(i as int + 1))
                    =~= name_values(all));
            }
        } else {
            proof {
                assert(!is_name_piece(rest[0]));
            }
        }
        i += 1;
    }
    proof {
        assert(all.skip(pieces@.len() as int) =~= Seq::<Seq<u8>>::empty());
        assert(name_values(Seq::<Seq<u8>>::empty()) =~= Seq::<Seq<u8>>::empty());
        assert(hits@.map_values(|v: Vec<u8>| v@) =~= name_values(all));
    }
    if hits.len() == 1 {
        let value = hits.remove(0);
        proof {
            assert(value@ == name_values(all)[0]);
        }
        match bytes_to_string(value) {
            Some(s) => Ok(RenameSubmission { name: s }),
            None => Err(ServiceError::FormDecodeError),
        }
    } else {
        Err(ServiceError::FormDecodeError)
    }
}

} // verus!

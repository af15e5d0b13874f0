//! Byte-level text helpers: whitespace classification, scanning for a
//! separator, comment stripping, trimming, and splitting a line into pieces.
//!
//! Lines are handled as byte sequences.  Whitespace means the ASCII
//! whitespace bytes; a `#` byte starts a comment that runs to the end of
//! the line.

use vstd::prelude::*;
use vstd::slice::slice_subrange;
use vstd::slice::slice_to_vec;

verus! {

/// The bytes treated as whitespace: space, tab, line feed, vertical tab,
/// form feed and carriage return.
pub open spec fn is_ws(b: u8) -> bool {
    b == 32 || (9 <= b && b <= 13)
}

/// What a scan looks for.
#[derive(Clone, Copy)]
pub enum ScanKind {
    Hash,
    Ws,
    NonWs,
    Slash,
    Dot,
    ExpMark,
}

/// The predicate a scan of the given kind stops at.
pub open spec fn scan_pred(w: ScanKind) -> spec_fn(u8) -> bool {
    match w {
        ScanKind::Hash => |b: u8| b == 35,
        ScanKind::Ws => |b: u8| is_ws(b),
        ScanKind::NonWs => |b: u8| !is_ws(b),
        ScanKind::Slash => |b: u8| b == 47,
        ScanKind::Dot => |b: u8| b == 46,
        ScanKind::ExpMark => |b: u8| b == 101 || b == 69,
    }
}

/// Length of the longest prefix of `s` that is free of bytes satisfying
/// `p`: the index of the first hit, or the length when there is none.
pub open spec fn scan_len(s: Seq<u8>, p: spec_fn(u8) -> bool) -> nat
    decreases s.len(),
{
    if s.len() == 0 || p(s[0]) {
        0
    } else {
        (1 + scan_len(s.drop_first(), p)) as nat
    }
}

/// The scan length is the unique index bounded by the length whose prefix
/// is free of hits and that either is the length or sits on a hit.
pub proof fn lemma_scan_len_is(s: Seq<u8>, p: spec_fn(u8) -> bool, k: int)
    requires
        0 <= k <= s.len(),
        forall|i: int| 0 <= i < k ==> !p(s[i]),
        k < s.len() ==> p(s[k]),
    ensures
        scan_len(s, p) == k,
    decreases s.len(),
{
    if s.len() == 0 {
    } else if p(s[0]) {
        assert(k == 0);
    } else {
        assert(k >= 1);
        let t = s.drop_first();
        assert forall|i: int| 0 <= i < k - 1 implies !p(t[i]) by {
            assert(t[i] == s[i + 1]);
        }
        if k - 1 < t.len() {
            assert(t[k - 1] == s[k]);
        }
        lemma_scan_len_is(t, p, k - 1);
    }
}

/// Whether `b` is what a scan of kind `w` stops at.
fn byte_hits(w: ScanKind, b: u8) -> (r: bool)
    ensures
        r == scan_pred(w)(b),
{
    match w {
        ScanKind::Hash => b == 35,
        ScanKind::Ws => b == 32 || (9 <= b && b <= 13),
        ScanKind::NonWs => !(b == 32 || (9 <= b && b <= 13)),
        ScanKind::Slash => b == 47,
        ScanKind::Dot => b == 46,
        ScanKind::ExpMark => b == 101 || b == 69,
    }
}

/// Scans `s` from `from` for the first byte a scan of kind `w` stops at;
/// returns the length of the slice when there is none.
pub fn find_from(w: ScanKind, s: &[u8], from: usize) -> (j: usize)
    requires
        from <= s@.len(),
    ensures
        from <= j <= s@.len(),
        j - from == scan_len(s@.skip(from as int), scan_pred(w)),
        forall|i: int| from <= i < j ==> !scan_pred(w)(s@[i]),
        j < s@.len() ==> scan_pred(w)(s@[j as int]),
{
    let ghost t = s@.skip(from as int);
    let mut j = from;
    loop
        invariant
            from <= j <= s@.len(),
            t == s@.skip(from as int),
            forall|i: int| from <= i < j ==> !scan_pred(w)(s@[i]),
        decreases s@.len() - j,
    {
        proof {
            assert forall|i: int| 0 <= i < j - from implies !scan_pred(w)(t[i]) by {
                assert(t[i] == s@[from + i]);
            }
        }
        if j >= s.len() {
            proof {
                lemma_scan_len_is(t, scan_pred(w), j - from);
            }
            return j;
        }
        if byte_hits(w, *vstd::slice::slice_index_get(s, j)) {
            proof {
                assert(t[j - from] == s@[j as int]);
                lemma_scan_len_is(t, scan_pred(w), j - from);
            }
            return j;
        }
        j = j + 1;
    }
}

/// Length of the run of whitespace that ends `s`.
pub open spec fn tail_ws_len(s: Seq<u8>) -> nat
    decreases s.len(),
{
    if s.len() > 0 && is_ws(s.last()) {
        (1 + tail_ws_len(s.drop_last())) as nat
    } else {
        0
    }
}

pub proof fn lemma_tail_ws_is(t: Seq<u8>, m: int)
    requires
        0 <= m <= t.len(),
        forall|i: int| m <= i < t.len() ==> is_ws(t[i]),
        m > 0 ==> !is_ws(t[m - 1]),
    ensures
        tail_ws_len(t) == t.len() - m,
    decreases t.len(),
{
    if t.len() == 0 {
    } else if m == t.len() {
    } else {
        assert(is_ws(t.last()));
        let d = t.drop_last();
        assert forall|i: int| m <= i < d.len() implies is_ws(d[i]) by {
            assert(d[i] == t[i]);
        }
        if m > 0 {
            assert(d[m - 1] == t[m - 1]);
        }
        lemma_tail_ws_is(d, m);
    }
}

/// Length of the run of whitespace that starts `s`.
pub open spec fn lead_ws_len(s: Seq<u8>) -> nat {
    scan_len(s, scan_pred(ScanKind::NonWs))
}

/// `s` with leading and trailing whitespace removed.
pub open spec fn trimmed(s: Seq<u8>) -> Seq<u8> {
    let t = s.skip(lead_ws_len(s) as int);
    t.take(t.len() - tail_ws_len(t))
}

/// Removes leading and trailing whitespace.
pub fn trim_bytes(s: &[u8]) -> (r: Vec<u8>)
    ensures
        r@ == trimmed(s@),
{
    let a = find_from(ScanKind::NonWs, s, 0);
    let mut b = s.len();
    while b > a && (*vstd::slice::slice_index_get(s, b - 1) == 32 || (9
        <= *vstd::slice::slice_index_get(s, b - 1) && *vstd::slice::slice_index_get(s, b - 1)
        <= 13))
        invariant
            a <= b <= s@.len(),
            forall|i: int| b <= i < s@.len() ==> is_ws(s@[i]),
        decreases b,
    {
        b = b - 1;
    }
    proof {
        assert(s@.skip(0) =~= s@);
        assert(a == lead_ws_len(s@));
        let t = s@.skip(a as int);
        assert forall|i: int| b - a <= i < t.len() implies is_ws(t[i]) by {
            assert(t[i] == s@[a + i]);
        }
        if b > a {
            assert(t[b - a - 1] == s@[b - 1]);
        }
        lemma_tail_ws_is(t, b - a);
        assert(t.take(b - a) =~= s@.subrange(a as int, b as int));
    }
    slice_to_vec(slice_subrange(s, a, b))
}

/// Index of the first `#` in `s`, or its length when there is none.
pub open spec fn hash_end(s: Seq<u8>) -> nat {
    scan_len(s, scan_pred(ScanKind::Hash))
}

/// `s` cut at its first `#`, then trimmed of surrounding whitespace.
pub open spec fn strip_comment(s: Seq<u8>) -> Seq<u8> {
    trimmed(s.take(hash_end(s) as int))
}

/// Drops anything from the first `#` onward, then trims whitespace.
pub fn remove_comments(line: &[u8]) -> (r: Vec<u8>)
    ensures
        r@ == strip_comment(line@),
{
    let h = find_from(ScanKind::Hash, line, 0);
    proof {
        assert(line@.skip(0) =~= line@);
        assert(h == hash_end(line@));
    }
    let head = slice_subrange(line, 0, h);
    proof {
        assert(head@ =~= line@.take(h as int));
    }
    trim_bytes(head)
}

/// Length of the first piece of `s` when cut at the first whitespace byte.
pub open spec fn key_end(s: Seq<u8>) -> nat {
    scan_len(s, scan_pred(ScanKind::Ws))
}

/// The first whitespace-delimited token of `s`: its opcode or key.
pub open spec fn key_of(s: Seq<u8>) -> Seq<u8> {
    s.take(key_end(s) as int)
}

/// What follows the first whitespace byte of `s`, when there is one.
pub open spec fn rest_of(s: Seq<u8>) -> Option<Seq<u8>> {
    if key_end(s) < s.len() {
        Some(s.skip(key_end(s) as int + 1))
    } else {
        None
    }
}

/// The sequence view of an optional byte vector.
pub open spec fn opt_bytes(o: Option<Vec<u8>>) -> Option<Seq<u8>> {
    match o {
        Some(v) => Some(v@),
        None => None,
    }
}

/// Splits `s` at its first whitespace byte into a key and, when the byte
/// exists, everything after it.
pub fn split_key_rest(line: &[u8]) -> (r: (Vec<u8>, Option<Vec<u8>>))
    ensures
        r.0@ == key_of(line@),
        opt_bytes(r.1) == rest_of(line@),
{
    let k = find_from(ScanKind::Ws, line, 0);
    proof {
        assert(line@.skip(0) =~= line@);
        assert(k == key_end(line@));
    }
    let key = slice_to_vec(slice_subrange(line, 0, k));
    proof {
        assert(key@ =~= line@.take(k as int));
    }
    if k < line.len() {
        let rest = slice_to_vec(slice_subrange(line, k + 1, line.len()));
        proof {
            assert(rest@ =~= line@.skip(k + 1));
        }
        (key, Some(rest))
    } else {
        (key, None)
    }
}

/// The pieces of `s` cut at every byte a scan of kind `w` stops at; empty
/// pieces are kept, and there is always at least one piece.
pub open spec fn split_at(w: ScanKind, s: Seq<u8>) -> Seq<Seq<u8>>
    decreases s.len(),
{
    let c = scan_len(s, scan_pred(w)) as int;
    if c >= s.len() {
        seq![s]
    } else {
        seq![s.take(c)] + split_at(w, s.skip(c + 1))
    }
}

/// The view of each piece in a vector of byte vectors.
pub open spec fn pieces_view(r: Seq<Vec<u8>>) -> Seq<Seq<u8>> {
    r.map_values(|t: Vec<u8>| t@)
}

fn split_from(w: ScanKind, s: &[u8], from: usize) -> (r: Vec<Vec<u8>>)
    requires
        from <= s@.len(),
    ensures
        pieces_view(r@) == split_at(w, s@.skip(from as int)),
    decreases s@.len() - from,
{
    let j = find_from(w, s, from);
    let piece = slice_to_vec(slice_subrange(s, from, j));
    let ghost t = s@.skip(from as int);
    proof {
        assert(piece@ =~= t.take(j - from));
    }
    if j == s.len() {
        let mut r: Vec<Vec<u8>> = Vec::new();
        r.push(piece);
        proof {
            assert(scan_len(t, scan_pred(w)) >= t.len());
            assert(piece@ =~= t);
            assert(pieces_view(r@) =~= seq![t]);
        }
        r
    } else {
        let mut r = split_from(w, s, j + 1);
        r.insert(0, piece);
        proof {
            assert(s@.skip(from as int).skip(j + 1 - from) =~= s@.skip(j + 1));
            assert(pieces_view(r@) =~= seq![piece@] + split_at(w, s@.skip(j + 1)));
        }
        r
    }
}

/// Cuts `s` at every byte a scan of kind `w` stops at, keeping empty pieces.
pub fn split_bytes(w: ScanKind, s: &[u8]) -> (r: Vec<Vec<u8>>)
    ensures
        pieces_view(r@) == split_at(w, s@),
{
    let r = split_from(w, s, 0);
    proof {
        assert(s@.skip(0) =~= s@);
    }
    r
}

/// The whitespace-separated fields of `s`: pieces between runs of
/// whitespace, with empty pieces dropped.
pub open spec fn ws_fields(s: Seq<u8>) -> Seq<Seq<u8>> {
    split_at(ScanKind::Ws, s).filter(|t: Seq<u8>| t.len() > 0)
}

/// Splits `s` on whitespace runs, keeping only the non-empty fields.
pub fn split_ws_fields(s: &[u8]) -> (r: Vec<Vec<u8>>)
    ensures
        pieces_view(r@) == ws_fields(s@),
{
    let pieces = split_bytes(ScanKind::Ws, s);
    let mut r: Vec<Vec<u8>> = Vec::new();
    let mut i: usize = 0;
    while i < pieces.len()
        invariant
            i <= pieces.len(),
            pieces_view(pieces@) == split_at(ScanKind::Ws, s@),
            pieces_view(r@) == pieces_view(pieces@).take(i as int).filter(
                |t: Seq<u8>| t.len() > 0,
            ),
        decreases pieces.len() - i,
    {
        let ghost pre = pieces_view(pieces@).take(i as int);
        let ghost post = pieces_view(pieces@).take(i + 1);
        proof {
            reveal(Seq::filter);
            assert(post.drop_last() =~= pre);
            assert(post.last() == pieces@[i as int]@);
        }
        if pieces[i].len() > 0 {
            let ghost before = r@;
            let piece = slice_to_vec(pieces[i].as_slice());
            r.push(piece);
            proof {
                assert(pieces_view(r@) =~= pieces_view(before).push(pieces@[i as int]@));
            }
        }
        proof {
            assert(pieces_view(r@) == post.filter(|t: Seq<u8>| t.len() > 0));
        }
        i = i + 1;
    }
    proof {
        assert(pieces_view(pieces@).take(pieces@.len() as int) =~= pieces_view(pieces@));
    }
    r
}

/// Compares two byte slices for equality of their contents.
pub fn eq_bytes(a: &[u8], b: &[u8]) -> (r: bool)
    ensures
        r == (a@ == b@),
{
    if a.len() != b.len() {
        proof {
            assert(a@ != b@);
        }
        return false;
    }
    let mut i: usize = 0;
    while i < a.len()
        invariant
            i <= a@.len(),
            a@.len() == b@.len(),
            forall|j: int| 0 <= j < i ==> a@[j] == b@[j],
        decreases a@.len() - i,
    {
        if *vstd::slice::slice_index_get(a, i) != *vstd::slice::slice_index_get(b, i) {
            proof {
                assert(a@ != b@);
            }
            return false;
        }
        i = i + 1;
    }
    proof {
        assert(a@ =~= b@);
    }
    true
}

} // verus!

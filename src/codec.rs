//! Fixed-width big-endian integers, the building block of every canonical encoding.

use vstd::prelude::*;
use vstd::seq_lib::lemma_concat_associative;

verus! {

/// Why a byte string could not be decoded.
#[derive(Debug, Clone, Copy, PartialEq, Eq, Structural)]
pub enum CodecError {
    /// Truncated input, trailing bytes, an unknown discriminant or a length overflow.
    CorruptedBytes,
}

/// The eight big-endian bytes of `v`.
pub open spec fn be_bytes(v: u64) -> Seq<u8> {
    seq![
        (v >> 56u64) as u8,
        (v >> 48u64) as u8,
        (v >> 40u64) as u8,
        (v >> 32u64) as u8,
        (v >> 24u64) as u8,
        (v >> 16u64) as u8,
        (v >> 8u64) as u8,
        v as u8,
    ]
}

/// The integer whose big-endian bytes are `s[at..at + 8]`.
pub open spec fn be_value(s: Seq<u8>, at: int) -> u64 {
    ((s[at] as u64) << 56u64) | ((s[at + 1] as u64) << 48u64) | ((s[at + 2] as u64) << 40u64)
        | ((s[at + 3] as u64) << 32u64) | ((s[at + 4] as u64) << 24u64) | ((s[at + 5] as u64)
        << 16u64) | ((s[at + 6] as u64) << 8u64) | (s[at + 7] as u64)
}

proof fn lemma_be_value_of_bytes(v: u64)
    ensures
        be_value(be_bytes(v), 0) == v,
{
    let b = be_bytes(v);
    let (b0, b1, b2, b3, b4, b5, b6, b7) = (b[0], b[1], b[2], b[3], b[4], b[5], b[6], b[7]);
    assert(b0 == (v >> 56u64) as u8 && b1 == (v >> 48u64) as u8 && b2 == (v >> 40u64) as u8
        && b3 == (v >> 32u64) as u8 && b4 == (v >> 24u64) as u8 && b5 == (v >> 16u64) as u8
        && b6 == (v >> 8u64) as u8 && b7 == v as u8);
    assert(((b0 as u64) << 56u64) | ((b1 as u64) << 48u64) | ((b2 as u64) << 40u64) | ((
    b3 as u64) << 32u64) | ((b4 as u64) << 24u64) | ((b5 as u64) << 16u64) | ((b6 as u64)
        << 8u64) | (b7 as u64) == v) by (bit_vector)
        requires
            b0 == (v >> 56u64) as u8,
            b1 == (v >> 48u64) as u8,
            b2 == (v >> 40u64) as u8,
            b3 == (v >> 32u64) as u8,
            b4 == (v >> 24u64) as u8,
            b5 == (v >> 16u64) as u8,
            b6 == (v >> 8u64) as u8,
            b7 == v as u8,
    ;
}

/// Reading back the bytes just written gives the integer written, wherever they stand.
pub proof fn lemma_be_round_trip(v: u64, pre: Seq<u8>, post: Seq<u8>)
    ensures
        be_value(pre + be_bytes(v) + post, pre.len() as int) == v,
{
    let s = pre + be_bytes(v) + post;
    let p = pre.len() as int;
    assert forall|i: int| 0 <= i < 8 implies s[p + i] == be_bytes(v)[i] by {}
    lemma_be_value_of_bytes(v);
}

/// Eight bytes read as an integer and written again are the same eight bytes.
pub proof fn lemma_be_bytes_of_value(s: Seq<u8>, at: int)
    requires
        0 <= at,
        at + 8 <= s.len(),
    ensures
        be_bytes(be_value(s, at)) == s.subrange(at, at + 8),
{
    let (b0, b1, b2, b3, b4, b5, b6, b7) = (
        s[at],
        s[at + 1],
        s[at + 2],
        s[at + 3],
        s[at + 4],
        s[at + 5],
        s[at + 6],
        s[at + 7],
    );
    let v = be_value(s, at);
    assert(v == ((b0 as u64) << 56u64) | ((b1 as u64) << 48u64) | ((b2 as u64) << 40u64) | ((
    b3 as u64) << 32u64) | ((b4 as u64) << 24u64) | ((b5 as u64) << 16u64) | ((b6 as u64)
        << 8u64) | (b7 as u64));
    assert(b0 == (v >> 56u64) as u8 && b1 == (v >> 48u64) as u8 && b2 == (v >> 40u64) as u8
        && b3 == (v >> 32u64) as u8 && b4 == (v >> 24u64) as u8 && b5 == (v >> 16u64) as u8
        && b6 == (v >> 8u64) as u8 && b7 == v as u8) by (bit_vector)
        requires
            v == ((b0 as u64) << 56u64) | ((b1 as u64) << 48u64) | ((b2 as u64) << 40u64) | ((
            b3 as u64) << 32u64) | ((b4 as u64) << 24u64) | ((b5 as u64) << 16u64) | ((
            b6 as u64) << 8u64) | (b7 as u64),
    ;
    assert(be_bytes(v) =~= s.subrange(at, at + 8));
}

/// A length-prefixed byte string: eight bytes of length, then the bytes.
pub open spec fn field_bytes(b: Seq<u8>) -> Seq<u8> {
    be_bytes(b.len() as u64) + b
}

/// Length-prefixed byte strings one after another.
pub open spec fn fields_bytes(items: Seq<Seq<u8>>) -> Seq<u8>
    decreases items.len(),
{
    if items.len() == 0 {
        Seq::empty()
    } else {
        fields_bytes(items.drop_last()) + field_bytes(items.last())
    }
}

/// A list of byte strings: its count in eight bytes, then each length-prefixed.
pub open spec fn list_bytes(items: Seq<Seq<u8>>) -> Seq<u8> {
    be_bytes(items.len() as u64) + fields_bytes(items)
}

/// The integer at `at` and the position after it, if eight bytes stand there.
#[verifier::opaque]
pub open spec fn parse_u64(s: Seq<u8>, at: int) -> Option<(u64, int)> {
    if 0 <= at && at + 8 <= s.len() {
        Some((be_value(s, at), at + 8))
    } else {
        None
    }
}

/// The length-prefixed byte string at `at` and the position after it, if whole.
#[verifier::opaque]
pub open spec fn parse_field(s: Seq<u8>, at: int) -> Option<(Seq<u8>, int)> {
    match parse_u64(s, at) {
        Some((n, p)) => if p + n <= s.len() {
            Some((s.subrange(p, p + n), p + n))
        } else {
            None
        },
        None => None,
    }
}

/// `n` length-prefixed byte strings from `at` on, and the position after them.
pub open spec fn parse_fields(s: Seq<u8>, at: int, n: nat) -> Option<(Seq<Seq<u8>>, int)>
    decreases n,
{
    if n == 0 {
        if 0 <= at <= s.len() {
            Some((Seq::empty(), at))
        } else {
            None
        }
    } else {
        match parse_fields(s, at, (n - 1) as nat) {
            Some((items, p)) => match parse_field(s, p) {
                Some((b, q)) => Some((items.push(b), q)),
                None => None,
            },
            None => None,
        }
    }
}

/// A counted list of byte strings at `at`, and the position after it.
pub open spec fn parse_list(s: Seq<u8>, at: int) -> Option<(Seq<Seq<u8>>, int)> {
    match parse_u64(s, at) {
        Some((n, p)) => parse_fields(s, p, n as nat),
        None => None,
    }
}

/// Every byte string fits a length prefix.
pub open spec fn fits_prefix(items: Seq<Seq<u8>>) -> bool {
    forall|i: int| 0 <= i < items.len() ==> (#[trigger] items[i]).len() <= u64::MAX
}

/// Byte strings joined one after another.
pub open spec fn concat(p: Seq<Seq<u8>>) -> Seq<u8>
    decreases p.len(),
{
    if p.len() == 0 {
        Seq::empty()
    } else {
        concat(p.drop_last()) + p.last()
    }
}

/// Joining the first `k + 1` pieces adds piece `k` to the join of the first `k`.
pub proof fn lemma_concat_take(p: Seq<Seq<u8>>, k: int)
    requires
        0 <= k < p.len(),
    ensures
        concat(p.take(k + 1)) == concat(p.take(k)) + p[k],
{
    assert(p.take(k + 1).drop_last() =~= p.take(k));
}

/// The join of all pieces, cut around piece `k`.
pub proof fn lemma_concat_split(p: Seq<Seq<u8>>, k: int)
    requires
        0 <= k < p.len(),
    ensures
        concat(p) == concat(p.take(k)) + p[k] + concat(p.skip(k + 1)),
    decreases p.len(),
{
    let dl = p.drop_last();
    if k == p.len() - 1 {
        assert(dl =~= p.take(k));
        assert(p.skip(k + 1) =~= Seq::<Seq<u8>>::empty());
        assert(concat(p.skip(k + 1)) =~= Seq::<u8>::empty());
        assert(concat(p) =~= concat(p.take(k)) + p[k] + concat(p.skip(k + 1)));
    } else {
        lemma_concat_split(dl, k);
        assert(dl.take(k) =~= p.take(k));
        assert(p.skip(k + 1).drop_last() =~= dl.skip(k + 1));
        assert(p.skip(k + 1).last() == p.last());
        assert(concat(p.skip(k + 1)) == concat(dl.skip(k + 1)) + p.last());
        lemma_concat_associative(concat(p.take(k)) + p[k], concat(dl.skip(k + 1)), p.last());
    }
}

/// An integer written at any place is read back there.
pub proof fn lemma_parse_u64(pre: Seq<u8>, v: u64, post: Seq<u8>)
    ensures
        parse_u64(pre + be_bytes(v) + post, pre.len() as int) == Some((v, pre.len() + 8int)),
        be_bytes(v).len() == 8,
{
    reveal(parse_u64);
    lemma_be_round_trip(v, pre, post);
}

/// A byte string written at any place is read back there.
pub proof fn lemma_parse_field(pre: Seq<u8>, b: Seq<u8>, post: Seq<u8>)
    requires
        b.len() <= u64::MAX,
    ensures
        parse_field(pre + field_bytes(b) + post, pre.len() as int) == Some((b, pre.len() + 8 + b.len() as int)),
        field_bytes(b).len() == 8 + b.len(),
{
    reveal(parse_field);
    reveal(parse_u64);
    let s = pre + field_bytes(b) + post;
    assert(s =~= pre + be_bytes(b.len() as u64) + (b + post));
    lemma_parse_u64(pre, b.len() as u64, b + post);
    assert(s.subrange(pre.len() as int + 8, pre.len() as int + 8 + b.len() as int) =~= b);
}

/// Byte strings written one after another at any place are read back there.
pub proof fn lemma_parse_fields(pre: Seq<u8>, items: Seq<Seq<u8>>, post: Seq<u8>)
    requires
        fits_prefix(items),
    ensures
        parse_fields(pre + fields_bytes(items) + post, pre.len() as int, items.len() as nat)
            == Some((items, (pre.len() + fields_bytes(items).len()) as int)),
    decreases items.len(),
{
    let s = pre + fields_bytes(items) + post;
    if items.len() == 0 {
        assert(fields_bytes(items) =~= Seq::<u8>::empty());
        assert(pre + Seq::<u8>::empty() + post =~= pre + post);
    } else {
        let init = items.drop_last();
        let last = items.last();
        assert(fits_prefix(init)) by {
            assert forall|i: int| 0 <= i < init.len() implies (#[trigger] init[i]).len() <= u64::MAX by {
                assert(init[i] == items[i]);
            }
        }
        let fi = fields_bytes(init);
        let fl = field_bytes(last);
        assert(fields_bytes(items) == fi + fl);
        lemma_concat_associative(pre, fi + fl, post);
        lemma_concat_associative(fi, fl, post);
        lemma_concat_associative(pre, fi, fl + post);
        assert(s == pre + fi + (fl + post));
        lemma_parse_fields(pre, init, fl + post);
        lemma_concat_associative(pre + fi, fl, post);
        assert(s == (pre + fi) + fl + post);
        lemma_parse_field(pre + fi, last, post);
        assert(init.push(last) =~= items);
    }
}

/// A list written at any place is read back there.
pub proof fn lemma_parse_list(pre: Seq<u8>, items: Seq<Seq<u8>>, post: Seq<u8>)
    requires
        fits_prefix(items),
        items.len() <= u64::MAX,
    ensures
        parse_list(pre + list_bytes(items) + post, pre.len() as int) == Some((items, (pre.len() + list_bytes(items).len()) as int)),
{
    let s = pre + list_bytes(items) + post;
    assert(s =~= pre + be_bytes(items.len() as u64) + (fields_bytes(items) + post));
    lemma_parse_u64(pre, items.len() as u64, fields_bytes(items) + post);
    assert(s =~= (pre + be_bytes(items.len() as u64)) + fields_bytes(items) + post);
    lemma_parse_fields(pre + be_bytes(items.len() as u64), items, post);
}

/// Appends `b` with its length prefix.
pub fn push_field(out: &mut Vec<u8>, b: &Vec<u8>)
    ensures
        final(out)@ == old(out)@ + field_bytes(b@),
{
    push_u64(out, b.len() as u64);
    let mut i: usize = 0;
    let ghost start = out@;
    while i < b.len()
        invariant
            start == old(out)@ + be_bytes(b@.len() as u64),
            i <= b@.len(),
            out@ == start + b@.subrange(0, i as int),
        decreases b@.len() - i,
    {
        out.push(b[i]);
        assert(b@.subrange(0, i + 1) =~= b@.subrange(0, i as int).push(b@[i as int]));
        i = i + 1;
    }
    assert(b@.subrange(0, i as int) =~= b@);
    assert(out@ =~= old(out)@ + field_bytes(b@));
}

/// Appends the counted list `items`.
pub fn push_list(out: &mut Vec<u8>, items: &Vec<Vec<u8>>)
    ensures
        final(out)@ == old(out)@ + list_bytes(items.deep_view()),
{
    push_u64(out, items.len() as u64);
    let ghost start = out@;
    let mut i: usize = 0;
    while i < items.len()
        invariant
            start == old(out)@ + be_bytes(items@.len() as u64),
            i <= items@.len(),
            out@ == start + fields_bytes(items.deep_view().subrange(0, i as int)),
        decreases items@.len() - i,
    {
        let ghost before = out@;
        push_field(out, &items[i]);
        proof {
            let d = items.deep_view();
            assert(d.subrange(0, i + 1).drop_last() =~= d.subrange(0, i as int));
            assert(d[i as int] =~= items@[i as int]@);
            assert(out@ =~= start + fields_bytes(d.subrange(0, i + 1)));
        }
        i = i + 1;
    }
    assert(items.deep_view().subrange(0, i as int) =~= items.deep_view());
    assert(out@ =~= old(out)@ + list_bytes(items.deep_view()));
}

/// Reads the length-prefixed byte string at `at`.
pub fn read_field(bytes: &[u8], at: usize) -> (r: Option<(Vec<u8>, usize)>)
    ensures
        r.is_some() <==> parse_field(bytes@, at as int).is_some(),
        r.is_some() ==> parse_field(bytes@, at as int) == Some((r.unwrap().0@, r.unwrap().1 as int)),
        r.is_some() ==> r.unwrap().1 <= bytes@.len(),
{
    reveal(parse_field);
    reveal(parse_u64);
    let n = match read_u64(bytes, at) {
        Some(n) => n,
        None => return None,
    };
    let len = bytes.len();
    assert(at + 8 <= len);
    let p = at + 8;
    if n > (bytes.len() - p) as u64 {
        return None;
    }
    let end = p + n as usize;
    let mut v: Vec<u8> = Vec::new();
    let mut i: usize = p;
    while i < end
        invariant
            p <= i <= end,
            end <= bytes@.len(),
            v@ == bytes@.subrange(p as int, i as int),
        decreases end - i,
    {
        v.push(bytes[i]);
        assert(bytes@.subrange(p as int, i + 1) =~= bytes@.subrange(p as int, i as int).push(bytes@[i as int]));
        i = i + 1;
    }
    Some((v, end))
}

/// Reads `n` length-prefixed byte strings from `at` on.
pub fn read_fields(bytes: &[u8], at: usize, n: u64) -> (r: Option<(Vec<Vec<u8>>, usize)>)
    requires
        at <= bytes@.len(),
    ensures
        r.is_some() <==> parse_fields(bytes@, at as int, n as nat).is_some(),
        r.is_some() ==> parse_fields(bytes@, at as int, n as nat) == Some((r.unwrap().0.deep_view(), r.unwrap().1 as int)),
{
    let mut items: Vec<Vec<u8>> = Vec::new();
    let mut pos = at;
    let mut i: u64 = 0;
    assert(items.deep_view() =~= Seq::<Seq<u8>>::empty());
    while i < n
        invariant
            i <= n,
            pos <= bytes@.len(),
            parse_fields(bytes@, at as int, i as nat) == Some((items.deep_view(), pos as int)),
        decreases n - i,
    {
        match read_field(bytes, pos) {
            Some((b, q)) => {
                let ghost before = items.deep_view();
                let ghost bv = b@;
                assert(b.deep_view() =~= bv);
                items.push(b);
                proof {
                    assert(items.deep_view() =~= before.push(bv));
                }
                pos = q;
            },
            None => {
                proof {
                    lemma_parse_fields_stuck(bytes@, at as int, (i + 1) as nat, n as nat);
                }
                return None;
            },
        }
        i = i + 1;
    }
    Some((items, pos))
}

proof fn lemma_parse_fields_stuck(s: Seq<u8>, at: int, k: nat, n: nat)
    requires
        1 <= k <= n,
        parse_fields(s, at, k).is_none(),
    ensures
        parse_fields(s, at, n).is_none(),
    decreases n - k,
{
    if k < n {
        lemma_parse_fields_stuck(s, at, k + 1, n);
    }
}

/// The canonical bytes of a list of byte strings.
pub fn encode_list(items: &Vec<Vec<u8>>) -> (r: Vec<u8>)
    ensures
        r@ == list_bytes(items.deep_view()),
{
    let mut out: Vec<u8> = Vec::new();
    push_list(&mut out, items);
    assert(out@ =~= list_bytes(items.deep_view()));
    out
}

/// Reads a list of byte strings that fills `bytes` exactly.
pub fn decode_list(bytes: &[u8]) -> (r: Result<Vec<Vec<u8>>, CodecError>)
    ensures
        r.is_ok() <==> (parse_list(bytes@, 0) matches Some((_, end)) && end == bytes@.len()),
        r.is_ok() ==> parse_list(bytes@, 0) == Some((r.unwrap().deep_view(), bytes@.len() as int)),
{
    reveal(parse_u64);
    let n = match read_u64(bytes, 0) {
        Some(n) => n,
        None => return Err(CodecError::CorruptedBytes),
    };
    let (items, end) = match read_fields(bytes, 8, n) {
        Some(x) => x,
        None => return Err(CodecError::CorruptedBytes),
    };
    if end != bytes.len() {
        return Err(CodecError::CorruptedBytes);
    }
    Ok(items)
}

/// Decoding the canonical bytes of a list gives the list back.
pub proof fn lemma_list_round_trip(items: Seq<Seq<u8>>)
    requires
        fits_prefix(items),
        items.len() <= u64::MAX,
    ensures
        parse_list(list_bytes(items), 0) == Some((items, list_bytes(items).len() as int)),
{
    let e = Seq::<u8>::empty();
    lemma_parse_list(e, items, e);
    assert(e + list_bytes(items) + e =~= list_bytes(items));
}

/// Appends the big-endian bytes of `v`.
pub fn push_u64(out: &mut Vec<u8>, v: u64)
    ensures
        final(out)@ == old(out)@ + be_bytes(v),
{
    out.push((v >> 56u64) as u8);
    out.push((v >> 48u64) as u8);
    out.push((v >> 40u64) as u8);
    out.push((v >> 32u64) as u8);
    out.push((v >> 24u64) as u8);
    out.push((v >> 16u64) as u8);
    out.push((v >> 8u64) as u8);
    out.push(v as u8);
    assert(final(out)@ =~= old(out)@ + be_bytes(v));
}

/// Reads the big-endian integer at `at`, if eight bytes stand there.
pub fn read_u64(bytes: &[u8], at: usize) -> (r: Option<u64>)
    ensures
        r.is_some() <==> at + 8 <= bytes@.len(),
        r.is_some() ==> r.unwrap() == be_value(bytes@, at as int),
{
    if at > bytes.len() || bytes.len() - at < 8 {
        return None;
    }
    let v: u64 = ((bytes[at] as u64) << 56u64) | ((bytes[at + 1] as u64) << 48u64) | ((
    bytes[at + 2] as u64) << 40u64) | ((bytes[at + 3] as u64) << 32u64) | ((bytes[at
        + 4] as u64) << 24u64) | ((bytes[at + 5] as u64) << 16u64) | ((bytes[at + 6] as u64)
        << 8u64) | (bytes[at + 7] as u64);
    Some(v)
}

} // verus!

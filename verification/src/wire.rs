//! Little-endian integers as they appear on the wire.
use vstd::prelude::*;

verus! {

/// The four bytes of `x` in little-endian order.
pub open spec fn le_bytes(x: u32) -> Seq<u8> {
    seq![
        (x & 0xff) as u8,
        ((x >> 8) & 0xff) as u8,
        ((x >> 16) & 0xff) as u8,
        ((x >> 24) & 0xff) as u8,
    ]
}

/// The `u32` whose little-endian bytes are `b0 b1 b2 b3`.
pub open spec fn le_value(b0: u8, b1: u8, b2: u8, b3: u8) -> u32 {
    (b0 as u32) | ((b1 as u32) << 8) | ((b2 as u32) << 16) | ((b3 as u32) << 24)
}

/// The little-endian `u32` stored in `buf` at offset `at`.
pub open spec fn le_u32_at(buf: Seq<u8>, at: int) -> u32 {
    le_value(buf[at], buf[at + 1], buf[at + 2], buf[at + 3])
}

/// Reading back the bytes of a value gives the value.
pub proof fn lemma_le_value_of_bytes(x: u32)
    ensures
        le_u32_at(le_bytes(x), 0) == x,
        le_bytes(x).len() == 4,
{
    let b0 = (x & 0xff) as u8;
    let b1 = ((x >> 8) & 0xff) as u8;
    let b2 = ((x >> 16) & 0xff) as u8;
    let b3 = ((x >> 24) & 0xff) as u8;
    assert(le_value(b0, b1, b2, b3) == x) by (bit_vector)
        requires
            b0 == (x & 0xff) as u8,
            b1 == ((x >> 8) & 0xff) as u8,
            b2 == ((x >> 16) & 0xff) as u8,
            b3 == ((x >> 24) & 0xff) as u8,
    ;
}

/// Writing out the value of four bytes gives the same four bytes.
pub proof fn lemma_le_bytes_of_value(b0: u8, b1: u8, b2: u8, b3: u8)
    ensures
        le_bytes(le_value(b0, b1, b2, b3)) == seq![b0, b1, b2, b3],
{
    let x = le_value(b0, b1, b2, b3);
    assert(b0 == (x & 0xff) as u8 && b1 == ((x >> 8) & 0xff) as u8 && b2 == ((x >> 16) & 0xff) as u8
        && b3 == ((x >> 24) & 0xff) as u8) by (bit_vector)
        requires
            x == (b0 as u32) | ((b1 as u32) << 8) | ((b2 as u32) << 16) | ((b3 as u32) << 24),
    ;
    assert(le_bytes(x) =~= seq![b0, b1, b2, b3]);
}

/// The arithmetic value of the little-endian `u32` stored at `at`.
pub proof fn lemma_le_value_arith(b0: u8, b1: u8, b2: u8, b3: u8)
    ensures
        le_value(b0, b1, b2, b3) as int == b0 as int + 256 * (b1 as int) + 65536 * (b2 as int)
            + 16777216 * (b3 as int),
{
    let x = le_value(b0, b1, b2, b3);
    assert(x == (b0 as u32) + 256 * (b1 as u32) + 65536 * (b2 as u32) + 16777216 * (b3 as u32))
        by (bit_vector)
        requires
            x == (b0 as u32) | ((b1 as u32) << 8) | ((b2 as u32) << 16) | ((b3 as u32) << 24),
    ;
}

/// Appends the four little-endian bytes of `x` to `buf`.
pub fn push_u32_le(buf: &mut Vec<u8>, x: u32)
    ensures
        final(buf)@ == old(buf)@ + le_bytes(x),
{
    buf.push((x & 0xff) as u8);
    buf.push(((x >> 8) & 0xff) as u8);
    buf.push(((x >> 16) & 0xff) as u8);
    buf.push(((x >> 24) & 0xff) as u8);
    assert(final(buf)@ =~= old(buf)@ + le_bytes(x));
}

/// Reads the little-endian `u32` stored in `buf` at offset `at`.
pub fn read_u32_le(buf: &[u8], at: usize) -> (x: u32)
    requires
        at + 4 <= buf@.len(),
    ensures
        x == le_u32_at(buf@, at as int),
{
    (buf[at] as u32) | ((buf[at + 1] as u32) << 8) | ((buf[at + 2] as u32) << 16) | ((
    buf[at + 3] as u32) << 24)
}

} // verus!

verus! {

/// Copies `v[a..b]`.
pub fn copy_range(v: &[u8], a: usize, b: usize) -> (out: Vec<u8>)
    requires
        a <= b <= v@.len(),
    ensures
        out@ == v@.subrange(a as int, b as int),
{
    let mut out: Vec<u8> = Vec::new();
    let mut i: usize = a;
    while i < b
        invariant
            a <= i <= b <= v@.len(),
            out@ =~= v@.subrange(a as int, i as int),
        decreases b - i,
    {
        out.push(v[i]);
        i = i + 1;
    }
    out
}

/// `data` cut into pieces of `size` bytes, the last one possibly shorter, as
/// `slice::chunks` cuts it.
pub open spec fn chunks(data: Seq<u8>, size: nat) -> Seq<Seq<u8>>
    decreases data.len(),
{
    if data.len() == 0 || size == 0 {
        Seq::empty()
    } else if data.len() <= size {
        seq![data]
    } else {
        seq![data.take(size as int)] + chunks(data.skip(size as int), size)
    }
}

/// The concatenation of a sequence of byte strings.
pub open spec fn flatten(pieces: Seq<Seq<u8>>) -> Seq<u8>
    decreases pieces.len(),
{
    if pieces.len() == 0 {
        Seq::empty()
    } else {
        pieces[0] + flatten(pieces.drop_first())
    }
}

/// Cutting data into chunks loses nothing and adds nothing: the chunks put back
/// together are the data, and each chunk holds between one and `size` bytes.
pub proof fn lemma_chunks_partition(data: Seq<u8>, size: nat)
    requires
        size > 0,
    ensures
        flatten(chunks(data, size)) == data,
        forall|k: int|
            0 <= k < chunks(data, size).len() ==> 0 < (#[trigger] chunks(data, size)[k]).len()
                <= size,
    decreases data.len(),
{
    if data.len() == 0 {
    } else if data.len() <= size {
        let c = chunks(data, size);
        assert(c.drop_first() =~= Seq::<Seq<u8>>::empty());
        assert(flatten(c.drop_first()) == Seq::<u8>::empty());
        assert(c[0] + Seq::<u8>::empty() =~= data);
    } else {
        let rest = data.skip(size as int);
        lemma_chunks_partition(rest, size);
        let c = chunks(data, size);
        assert(c.drop_first() =~= chunks(rest, size));
        assert(data.take(size as int) + rest =~= data);
        assert forall|k: int| 0 <= k < c.len() implies 0 < (#[trigger] c[k]).len() <= size by {
            if k > 0 {
                assert(c[k] == chunks(rest, size)[k - 1]);
            }
        }
    }
}

proof fn lemma_chunks_step(data: Seq<u8>, size: nat, p: int)
    requires
        size > 0,
        0 <= p < data.len(),
    ensures
        chunks(data.skip(p), size) == seq![
            data.subrange(p, if data.len() - p <= size { data.len() as int } else { p + size })
        ] + chunks(data.skip(if data.len() - p <= size { data.len() as int } else { p + size }), size),
{
    let rest = data.skip(p);
    if rest.len() <= size {
        assert(rest =~= data.subrange(p, data.len() as int));
        assert(data.skip(data.len() as int) =~= Seq::<u8>::empty());
        assert(seq![rest] =~= seq![rest] + Seq::<Seq<u8>>::empty());
    } else {
        assert(rest.take(size as int) =~= data.subrange(p, p + size));
        assert(rest.skip(size as int) =~= data.skip(p + size));
    }
}

/// Cuts `data` into chunks of `size` bytes.
pub fn split_chunks(data: &[u8], size: usize) -> (pieces: Vec<Vec<u8>>)
    requires
        size > 0,
    ensures
        pieces@.len() == chunks(data@, size as nat).len(),
        forall|k: int|
            0 <= k < pieces@.len() ==> #[trigger] pieces@[k]@ == chunks(data@, size as nat)[k],
{
    let mut pieces: Vec<Vec<u8>> = Vec::new();
    let mut p: usize = 0;
    let ghost all = chunks(data@, size as nat);
    assert(data@.skip(0) =~= data@);
    while p < data.len()
        invariant
            size > 0,
            p <= data@.len(),
            all == chunks(data@, size as nat),
            all.len() == pieces@.len() + chunks(data@.skip(p as int), size as nat).len(),
            forall|k: int| 0 <= k < pieces@.len() ==> #[trigger] pieces@[k]@ == all[k],
            forall|k: int|
                0 <= k < chunks(data@.skip(p as int), size as nat).len() ==> all[pieces@.len() + k]
                    == #[trigger] chunks(data@.skip(p as int), size as nat)[k],
        decreases data@.len() - p,
    {
        let end = if data.len() - p <= size {
            data.len()
        } else {
            p + size
        };
        proof {
            lemma_chunks_step(data@, size as nat, p as int);
        }
        let piece = copy_range(data, p, end);
        let ghost old_rest = chunks(data@.skip(p as int), size as nat);
        let ghost new_rest = chunks(data@.skip(end as int), size as nat);
        proof {
            assert(old_rest[0] == piece@);
            assert forall|k: int| 0 <= k < new_rest.len() implies all[pieces@.len() + 1 + k]
                == #[trigger] new_rest[k] by {
                assert(old_rest[k + 1] == new_rest[k]);
            }
        }
        pieces.push(piece);
        p = end;
    }
    assert(chunks(data@.skip(p as int), size as nat).len() == 0);
    pieces
}

} // verus!

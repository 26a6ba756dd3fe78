//! Byte sequences laid back to back, and the boundaries between them.
//!
//! Every category of the wire format stores its items or fields as
//! consecutive pieces of one buffer. `pieces` cuts a buffer at given
//! boundaries; `concat` and `layout` put pieces together and say where each
//! of them then starts.

use vstd::prelude::*;

verus! {

/// The pieces, one after the other.
pub open spec fn concat(parts: Seq<Seq<u8>>) -> Seq<u8>
    decreases parts.len(),
{
    if parts.len() == 0 {
        Seq::empty()
    } else {
        concat(parts.drop_last()) + parts.last()
    }
}

/// The sum of the lengths of the pieces.
pub open spec fn total_len(parts: Seq<Seq<u8>>) -> nat
    decreases parts.len(),
{
    if parts.len() == 0 {
        0
    } else {
        total_len(parts.drop_last()) + parts.last().len()
    }
}

/// The boundaries of the pieces when the first of them starts at `start`:
/// entry `k` is where piece `k` starts, and the last entry is where the last
/// piece ends.
pub open spec fn layout(parts: Seq<Seq<u8>>, start: int) -> Seq<int> {
    Seq::new(parts.len() + 1, |k: int| start + total_len(parts.take(k)))
}

/// The pieces of `bytes` between consecutive boundaries.
pub open spec fn pieces(bytes: Seq<u8>, bounds: Seq<int>) -> Seq<Seq<u8>> {
    Seq::new(
        (bounds.len() - 1) as nat,
        |k: int| bytes.subrange(bounds[k], bounds[k + 1]),
    )
}

/// No boundary is smaller than one before it.
pub open spec fn non_decreasing(bounds: Seq<int>) -> bool {
    forall|i: int, j: int| 0 <= i <= j < bounds.len() ==> bounds[i] <= bounds[j]
}

/// The views of the owned pieces of a builder.
pub open spec fn views(items: Seq<Vec<u8>>) -> Seq<Seq<u8>> {
    Seq::new(items.len(), |i: int| items[i]@)
}

/// The length of the join is the sum of the lengths.
pub proof fn lemma_concat_len(parts: Seq<Seq<u8>>)
    ensures
        concat(parts).len() == total_len(parts),
    decreases parts.len(),
{
    if parts.len() > 0 {
        lemma_concat_len(parts.drop_last());
    }
}

/// One piece more comes last in the join, and adds its length.
pub proof fn lemma_concat_push(parts: Seq<Seq<u8>>, part: Seq<u8>)
    ensures
        concat(parts.push(part)) == concat(parts) + part,
        total_len(parts.push(part)) == total_len(parts) + part.len(),
{
    assert(parts.push(part).drop_last() =~= parts);
}

/// The total length of a prefix grows with the prefix.
pub proof fn lemma_total_len_take(parts: Seq<Seq<u8>>, i: int, j: int)
    requires
        0 <= i <= j <= parts.len(),
    ensures
        total_len(parts.take(i)) <= total_len(parts.take(j)),
        j == parts.len() ==> total_len(parts.take(j)) == total_len(parts),
        i < parts.len() ==> total_len(parts.take(i + 1)) == total_len(parts.take(i))
            + parts[i].len(),
    decreases j - i,
{
    if j == parts.len() {
        assert(parts.take(j) =~= parts);
    }
    if i < parts.len() {
        assert(parts.take(i + 1).drop_last() =~= parts.take(i));
    }
    if i < j {
        lemma_total_len_take(parts, i + 1, j);
    }
}

/// The boundaries of pieces laid back to back do not decrease.
pub proof fn lemma_layout_non_decreasing(parts: Seq<Seq<u8>>, start: int)
    ensures
        non_decreasing(layout(parts, start)),
        layout(parts, start).len() == parts.len() + 1,
        layout(parts, start)[0] == start,
        layout(parts, start).last() == start + total_len(parts),
{
    let b = layout(parts, start);
    assert forall|i: int, j: int| 0 <= i <= j < b.len() implies b[i] <= b[j] by {
        lemma_total_len_take(parts, i, j);
    }
    assert(parts.take(0) =~= Seq::<Seq<u8>>::empty());
    lemma_total_len_take(parts, 0, parts.len() as int);
}

/// Cutting a buffer at boundaries and joining the pieces gives the part of
/// the buffer between the first and the last boundary.
pub proof fn lemma_concat_pieces(bytes: Seq<u8>, bounds: Seq<int>)
    requires
        bounds.len() >= 1,
        non_decreasing(bounds),
        0 <= bounds[0],
        bounds.last() <= bytes.len(),
    ensures
        concat(pieces(bytes, bounds)) == bytes.subrange(bounds[0], bounds.last()),
    decreases bounds.len(),
{
    let n = bounds.len() - 1;
    let ps = pieces(bytes, bounds);
    if n == 0 {
        assert(concat(ps) =~= bytes.subrange(bounds[0], bounds.last()));
    } else {
        let shorter = bounds.drop_last();
        assert(ps.drop_last() =~= pieces(bytes, shorter));
        lemma_concat_pieces(bytes, shorter);
        assert(bounds[0] <= bounds[n - 1] <= bounds[n]);
        assert(concat(ps) =~= bytes.subrange(bounds[0], bounds.last()));
    }
}

/// Piece `k` of a join stands in it between the lengths of the pieces before
/// it and of the pieces up to it.
pub proof fn lemma_concat_subrange(parts: Seq<Seq<u8>>, k: int)
    requires
        0 <= k < parts.len(),
    ensures
        total_len(parts.take(k)) + parts[k].len() == total_len(parts.take(k + 1)),
        total_len(parts.take(k + 1)) <= concat(parts).len(),
        concat(parts).subrange(
            total_len(parts.take(k)) as int,
            total_len(parts.take(k + 1)) as int,
        ) == parts[k],
    decreases parts.len(),
{
    let n = parts.len() - 1;
    let front = parts.drop_last();
    lemma_concat_len(parts);
    lemma_concat_len(front);
    lemma_total_len_take(parts, k, k + 1);
    lemma_total_len_take(parts, k + 1, parts.len() as int);
    if k == n {
        assert(parts.take(k) =~= front);
        assert(parts.take(k + 1) =~= parts);
        assert(concat(parts).subrange(
            total_len(parts.take(k)) as int,
            total_len(parts.take(k + 1)) as int,
        ) =~= parts[k]);
    } else {
        lemma_concat_subrange(front, k);
        assert(front.take(k) =~= parts.take(k));
        assert(front.take(k + 1) =~= parts.take(k + 1));
        assert(concat(parts).subrange(
            total_len(parts.take(k)) as int,
            total_len(parts.take(k + 1)) as int,
        ) =~= concat(front).subrange(
            total_len(parts.take(k)) as int,
            total_len(parts.take(k + 1)) as int,
        ));
    }
}

/// Joining pieces behind a prefix and cutting the result at the boundaries
/// of their layout gives the pieces back.
pub proof fn lemma_pieces_of_concat(prefix: Seq<u8>, parts: Seq<Seq<u8>>, suffix: Seq<u8>)
    ensures
        pieces(prefix + concat(parts) + suffix, layout(parts, prefix.len() as int)) == parts,
{
    let bytes = prefix + concat(parts) + suffix;
    let b = layout(parts, prefix.len() as int);
    let ps = pieces(bytes, b);
    assert(ps.len() == parts.len());
    assert forall|k: int| 0 <= k < parts.len() implies ps[k] == parts[k] by {
        lemma_concat_subrange(parts, k);
        assert(ps[k] =~= concat(parts).subrange(
            total_len(parts.take(k)) as int,
            total_len(parts.take(k + 1)) as int,
        ));
    }
    assert(ps =~= parts);
}

/// The boundaries of `count` pieces of `size` bytes each, from `start` on.
pub open spec fn uniform_bounds(start: int, size: nat, count: nat) -> Seq<int> {
    Seq::new(count + 1, |k: int| start + k * size)
}

/// Every piece has `size` bytes.
pub open spec fn all_of_size(parts: Seq<Seq<u8>>, size: nat) -> bool {
    forall|k: int| 0 <= k < parts.len() ==> (#[trigger] parts[k]).len() == size
}

/// Boundaries at equal distances do not decrease.
pub proof fn lemma_uniform_bounds(start: int, size: nat, count: nat)
    ensures
        non_decreasing(uniform_bounds(start, size, count)),
        uniform_bounds(start, size, count)[0] == start,
        uniform_bounds(start, size, count).last() == start + count * size,
{
    let b = uniform_bounds(start, size, count);
    assert forall|i: int, j: int| 0 <= i <= j < b.len() implies b[i] <= b[j] by {
        assert(i * size <= j * size) by (nonlinear_arith)
            requires
                0 <= i <= j,
        ;
    }
}

/// Pieces of one size, laid back to back, start at multiples of that size.
pub proof fn lemma_layout_uniform(parts: Seq<Seq<u8>>, start: int, size: nat)
    requires
        all_of_size(parts, size),
    ensures
        layout(parts, start) == uniform_bounds(start, size, parts.len()),
        total_len(parts) == parts.len() * size,
    decreases parts.len(),
{
    let n = parts.len();
    assert forall|k: int| 0 <= k <= n implies total_len(#[trigger] parts.take(k)) == k * size by {
        lemma_total_len_uniform(parts.take(k), size);
    }
    assert(parts.take(n as int) =~= parts);
    assert(layout(parts, start) =~= uniform_bounds(start, size, n));
}

/// Pieces of one size have that size times their number in all.
pub proof fn lemma_total_len_uniform(parts: Seq<Seq<u8>>, size: nat)
    requires
        all_of_size(parts, size),
    ensures
        total_len(parts) == parts.len() * size,
    decreases parts.len(),
{
    if parts.len() > 0 {
        lemma_total_len_uniform(parts.drop_last(), size);
        assert(parts.last().len() == size);
        assert((parts.len() - 1) * size + size == parts.len() * size) by (nonlinear_arith);
    }
}

/// Appends every piece of `items` to `out`, in order.
pub fn append_all(out: &mut Vec<u8>, items: &Vec<Vec<u8>>)
    ensures
        final(out)@ == old(out)@ + concat(views(items@)),
{
    let ghost parts = views(items@);
    let mut k: usize = 0;
    assert(parts.take(0) =~= Seq::<Seq<u8>>::empty());
    assert(out@ =~= old(out)@ + concat(parts.take(0)));
    while k < items.len()
        invariant
            k <= items.len(),
            parts == views(items@),
            out@ == old(out)@ + concat(parts.take(k as int)),
        decreases items.len() - k,
    {
        proof {
            assert(parts.take(k + 1) =~= parts.take(k as int).push(parts[k as int]));
            lemma_concat_push(parts.take(k as int), parts[k as int]);
        }
        out.extend_from_slice(items[k].as_slice());
        assert(out@ =~= old(out)@ + concat(parts.take(k + 1)));
        k += 1;
    }
    assert(parts.take(k as int) =~= parts);
}

/// `len` zero bytes.
pub fn zeros(len: usize) -> (bytes: Vec<u8>)
    ensures
        bytes@.len() == len,
        forall|i: int| 0 <= i < len ==> bytes@[i] == 0,
{
    let mut bytes: Vec<u8> = Vec::with_capacity(len);
    let mut i: usize = 0;
    while i < len
        invariant
            i <= len,
            bytes@.len() == i,
            forall|j: int| 0 <= j < i ==> bytes@[j] == 0,
        decreases len - i,
    {
        bytes.push(0u8);
        i += 1;
    }
    bytes
}

} // verus!

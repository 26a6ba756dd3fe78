//! The offset table shared by dynamic vectors and tables.
//!
//! Such an encoding starts with its total size. Unless that is all there is,
//! the start offset of each entry follows, and then the entries themselves.
//! The first offset is where the table ends, so it also tells how many
//! entries there are.

use crate::error::{ErrorView, VerificationError};
use crate::number::{
    HEADER_SIZE,
    lemma_bytes_of_four,
    lemma_number_at_of_bytes,
    lemma_number_bytes_of_number_at,
    lemma_number_round_trip,
    number_at,
    number_bytes,
    pack_number,
    unpack_number,
};
use crate::pieces::{
    all_of_size,
    append_all,
    concat,
    layout,
    lemma_concat_len,
    lemma_concat_pieces,
    lemma_concat_push,
    lemma_concat_subrange,
    lemma_layout_non_decreasing,
    lemma_layout_uniform,
    lemma_pieces_of_concat,
    lemma_total_len_take,
    lemma_uniform_bounds,
    non_decreasing,
    pieces,
    total_len,
    uniform_bounds,
    views,
};
use vstd::prelude::*;
use vstd::slice::slice_subrange;

verus! {

/// What the checks of the header say of `bytes`: the number of entries of
/// the offset table, or the first check that fails. The checks, in order:
/// the total size is there; it is the length of `bytes`; if more than the
/// total size is there, so is a first offset; the first offset is a multiple
/// of the header size and leaves room for itself; the table it announces
/// lies within `bytes`.
pub open spec fn header_verdict(name: Seq<char>, bytes: Seq<u8>) -> Result<nat, ErrorView> {
    let len = bytes.len();
    if len < 4 {
        Err(ErrorView::HeaderIsBroken { name, expected: 4, actual: len })
    } else if number_at(bytes, 0) != len {
        Err(ErrorView::TotalSizeNotMatch { name, expected: number_at(bytes, 0), actual: len })
    } else if len == 4 {
        Ok(0)
    } else if len < 8 {
        Err(ErrorView::TotalSizeNotMatch { name, expected: 8, actual: len })
    } else if number_at(bytes, 4) % 4 != 0 || number_at(bytes, 4) < 8 {
        Err(ErrorView::OffsetsNotMatch { name })
    } else if number_at(bytes, 4) > len {
        Err(ErrorView::HeaderIsBroken { name, expected: number_at(bytes, 4), actual: len })
    } else {
        Ok((number_at(bytes, 4) / 4 - 1) as nat)
    }
}

/// The number of entries that the first offset of `bytes` announces; none
/// where there is no first offset.
pub open spec fn entry_count(bytes: Seq<u8>) -> nat {
    if bytes.len() < 8 {
        0
    } else {
        (number_at(bytes, 4) / 4 - 1) as nat
    }
}

/// The header of `bytes` passes every check and announces `count` entries.
pub open spec fn header_ok(bytes: Seq<u8>, count: nat) -> bool {
    header_verdict(Seq::empty(), bytes) == Ok::<nat, ErrorView>(count)
}

/// The boundaries of the entries: the `count` offsets of the table, then the
/// length of `bytes` as the end of the last entry.
pub open spec fn boundaries(bytes: Seq<u8>, count: nat) -> Seq<int> {
    Seq::new(
        count + 1,
        |k: int|
            if k < count {
                number_at(bytes, 4 * (k + 1)) as int
            } else {
                bytes.len() as int
            },
    )
}

/// The encodings of the first `count` boundaries, one piece each.
pub open spec fn offset_pieces(bounds: Seq<int>, count: nat) -> Seq<Seq<u8>> {
    Seq::new(count, |k: int| number_bytes(bounds[k] as nat))
}

/// The offset table for the given boundaries, without the total size.
pub open spec fn offsets_bytes(bounds: Seq<int>, count: nat) -> Seq<u8> {
    concat(offset_pieces(bounds, count))
}

/// The encoding of the given entries: total size, offset table, entries.
pub open spec fn table_encoding(parts: Seq<Seq<u8>>) -> Seq<u8> {
    let bounds = layout(parts, 4 * (parts.len() + 1) as int);
    number_bytes(bounds.last() as nat) + offsets_bytes(bounds, parts.len()) + concat(parts)
}

/// The size of the encoding of the given entries.
pub open spec fn table_size(parts: Seq<Seq<u8>>) -> nat {
    4 * (parts.len() + 1) + total_len(parts)
}

/// What holds of an encoding whose header passes the checks: a `Number`
/// holds its length, which is the total size it records; its offset table
/// lies within it; and its first offset, if it has one, is where the table
/// ends. Whether the header passes does not depend on the name.
pub proof fn lemma_header_ok(name: Seq<char>, bytes: Seq<u8>)
    ensures
        header_verdict(name, bytes) matches Ok(n) ==> {
            &&& header_ok(bytes, n)
            &&& entry_count(bytes) == n
            &&& n == 0 <==> bytes.len() == 4
            &&& n > 0 ==> number_at(bytes, 4) == 4 * (n + 1)
            &&& 4 * (n + 1) <= bytes.len() <= u32::MAX
            &&& number_at(bytes, 0) == bytes.len()
        },
        header_verdict(name, bytes) is Err ==> header_verdict(Seq::empty(), bytes) is Err,
{
    if bytes.len() >= 4 {
        lemma_number_bytes_of_number_at(bytes, 0);
    }
}

/// A header that passes the checks passes them under every name.
pub proof fn lemma_header_same(name: Seq<char>, bytes: Seq<u8>)
    ensures
        header_verdict(Seq::empty(), bytes) matches Ok(n) ==> header_verdict(name, bytes) == Ok::<
            nat,
            ErrorView,
        >(n),
{
}

/// Where offset `index` of an offset table stands in its encoding.
pub fn offset_position(index: usize) -> (at: usize)
    requires
        4 * (index + 1) <= usize::MAX,
    ensures
        at == 4 * (index + 1),
{
    HEADER_SIZE * (index + 1)
}

/// Reads offset `index` of the offset table of `slice`.
pub fn read_offset(slice: &[u8], index: usize) -> (offset: usize)
    requires
        4 * (index + 2) <= slice@.len(),
    ensures
        offset == number_at(slice@, 4 * (index + 1)),
{
    let len = slice.len();
    let at = offset_position(index);
    let offset = unpack_number(slice_subrange(slice, at, len));
    assert(number_at(slice@.subrange(at as int, len as int), 0) == number_at(slice@, at as int));
    offset as usize
}

/// Reads the header of `slice` and returns the number of entries that its
/// offset table has.
pub fn check_header(name: &String, slice: &[u8]) -> (r: Result<usize, VerificationError>)
    ensures
        match r {
            Ok(n) => header_verdict(name@, slice@) == Ok::<nat, ErrorView>(n as nat),
            Err(e) => header_verdict(name@, slice@) == Err::<nat, ErrorView>(e@),
        },
{
    let len = slice.len();
    if len < HEADER_SIZE {
        return Err(
            VerificationError::HeaderIsBroken {
                name: name.clone(),
                expected: HEADER_SIZE as u64,
                actual: len as u64,
            },
        );
    }
    let total_size = unpack_number(slice);
    if len as u64 != total_size as u64 {
        return Err(
            VerificationError::TotalSizeNotMatch {
                name: name.clone(),
                expected: total_size as u64,
                actual: len as u64,
            },
        );
    }
    if len == HEADER_SIZE {
        return Ok(0);
    }
    if len < 2 * HEADER_SIZE {
        return Err(
            VerificationError::TotalSizeNotMatch {
                name: name.clone(),
                expected: 2 * HEADER_SIZE as u64,
                actual: len as u64,
            },
        );
    }
    let offset_first = unpack_number(slice_subrange(slice, HEADER_SIZE, len));
    assert(number_at(slice@.subrange(4, len as int), 0) == number_at(slice@, 4));
    if offset_first % 4 != 0 || offset_first < 8 {
        return Err(VerificationError::OffsetsNotMatch { name: name.clone() });
    }
    if offset_first as u64 > len as u64 {
        return Err(
            VerificationError::HeaderIsBroken {
                name: name.clone(),
                expected: offset_first as u64,
                actual: len as u64,
            },
        );
    }
    Ok((offset_first / 4 - 1) as usize)
}

/// Reads the boundaries of the `count` entries of `slice`.
pub fn read_boundaries(slice: &[u8], count: usize) -> (bounds: Vec<usize>)
    requires
        header_ok(slice@, count as nat),
    ensures
        bounds@.map_values(|b: usize| b as int) == boundaries(slice@, count as nat),
{
    proof {
        lemma_header_ok(Seq::empty(), slice@);
    }
    let len = slice.len();
    let mut bounds: Vec<usize> = Vec::with_capacity(count + 1);
    let mut k: usize = 0;
    while k < count
        invariant
            k <= count,
            len == slice@.len(),
            4 * (count + 1) <= len <= u32::MAX,
            bounds@.len() == k,
            forall|i: int| 0 <= i < k ==> bounds@[i] == boundaries(slice@, count as nat)[i],
        decreases count - k,
    {
        bounds.push(read_offset(slice, k));
        k += 1;
    }
    bounds.push(len);
    assert(bounds@.map_values(|b: usize| b as int) =~= boundaries(slice@, count as nat));
    bounds
}

/// Tells whether no boundary is smaller than the one before it.
pub fn is_non_decreasing(bounds: &Vec<usize>) -> (ok: bool)
    ensures
        ok == non_decreasing(bounds@.map_values(|b: usize| b as int)),
{
    let ghost ints = bounds@.map_values(|b: usize| b as int);
    let mut k: usize = 1;
    while k < bounds.len()
        invariant
            1 <= k,
            ints == bounds@.map_values(|b: usize| b as int),
            forall|i: int, j: int| 0 <= i <= j < k && j < ints.len() ==> ints[i] <= ints[j],
        decreases bounds.len() - k,
    {
        if bounds[k - 1] > bounds[k] {
            assert(ints[k - 1] > ints[k as int]);
            return false;
        }
        assert forall|i: int, j: int| 0 <= i <= j < k + 1 && j < ints.len() implies ints[i]
            <= ints[j] by {
            if j == k && i < k {
                assert(ints[i] <= ints[k - 1]);
            }
        }
        k += 1;
    }
    true
}

/// The offset table has four bytes for each entry.
pub proof fn lemma_offsets_bytes_len(bounds: Seq<int>, count: nat)
    ensures
        offsets_bytes(bounds, count).len() == 4 * count,
{
    let nums = offset_pieces(bounds, count);
    assert(all_of_size(nums, 4));
    lemma_layout_uniform(nums, 0, 4);
    lemma_concat_len(nums);
}

/// The offset table holds the encoding of boundary `k` in its bytes from
/// `4 * k` on.
pub proof fn lemma_offsets_bytes(bounds: Seq<int>, count: nat)
    ensures
        offsets_bytes(bounds, count).len() == 4 * count,
        forall|k: int|
            0 <= k < count ==> #[trigger] offsets_bytes(bounds, count).subrange(4 * k, 4 * k + 4)
                == number_bytes(bounds[k] as nat),
{
    let nums = offset_pieces(bounds, count);
    assert(all_of_size(nums, 4));
    lemma_layout_uniform(nums, 0, 4);
    lemma_concat_len(nums);
    assert forall|k: int| 0 <= k < count implies #[trigger] offsets_bytes(bounds, count).subrange(
        4 * k,
        4 * k + 4,
    ) == number_bytes(bounds[k] as nat) by {
        lemma_concat_subrange(nums, k);
        assert(layout(nums, 0)[k] == uniform_bounds(0, 4, count)[k]);
        assert(layout(nums, 0)[k + 1] == uniform_bounds(0, 4, count)[k + 1]);
    }
}

/// The encoding of entries has the size that `table_size` says.
pub proof fn lemma_table_encoding_len(parts: Seq<Seq<u8>>)
    ensures
        table_encoding(parts).len() == table_size(parts),
{
    let start = 4 * (parts.len() + 1) as int;
    lemma_offsets_bytes_len(layout(parts, start), parts.len());
    lemma_concat_len(parts);
}

/// Reading the encoding of entries gives its size as total size and the
/// start of each entry as its offset.
pub proof fn lemma_table_encoding_numbers(parts: Seq<Seq<u8>>)
    requires
        table_size(parts) <= u32::MAX,
    ensures
        table_encoding(parts).len() == table_size(parts),
        number_at(table_encoding(parts), 0) == table_size(parts),
        forall|k: int|
            0 <= k < parts.len() ==> #[trigger] number_at(table_encoding(parts), 4 * (k + 1))
                == layout(parts, 4 * (parts.len() + 1) as int)[k],
{
    let n = parts.len();
    let start = 4 * (n + 1) as int;
    let b = layout(parts, start);
    let total = b.last() as nat;
    let table = offsets_bytes(b, n);
    let enc = table_encoding(parts);
    lemma_layout_non_decreasing(parts, start);
    lemma_offsets_bytes(b, n);
    lemma_concat_len(parts);
    lemma_number_round_trip(total, Seq::empty(), table + concat(parts));
    assert(Seq::<u8>::empty() + number_bytes(total) + (table + concat(parts)) =~= enc);
    assert forall|k: int| 0 <= k < n implies #[trigger] number_at(enc, 4 * (k + 1)) == b[k] by {
        assert(b[0] <= b[k] <= b[n as int]);
        assert(enc.subrange(4 * (k + 1), 4 * (k + 1) + 4) =~= table.subrange(4 * k, 4 * k + 4));
        lemma_number_at_of_bytes(enc, 4 * (k + 1), b[k] as nat);
    }
}

/// The header of the encoding of entries passes the checks, and its offset
/// table holds the boundaries of the entries.
pub proof fn lemma_table_encoding_header(parts: Seq<Seq<u8>>)
    requires
        table_size(parts) <= u32::MAX,
    ensures
        header_ok(table_encoding(parts), parts.len()),
        boundaries(table_encoding(parts), parts.len()) == layout(
            parts,
            4 * (parts.len() + 1) as int,
        ),
{
    let n = parts.len();
    let start = 4 * (n + 1) as int;
    let b = layout(parts, start);
    let enc = table_encoding(parts);
    lemma_table_encoding_numbers(parts);
    lemma_layout_non_decreasing(parts, start);
    if n > 0 {
        assert(number_at(enc, 4 * (0int + 1)) == b[0]);
    }
    assert(header_ok(enc, n));
    assert(boundaries(enc, n) =~= b);
}

/// Cutting the encoding of entries at the boundaries of their layout gives
/// the entries back.
pub proof fn lemma_table_encoding_pieces(parts: Seq<Seq<u8>>)
    ensures
        pieces(table_encoding(parts), layout(parts, 4 * (parts.len() + 1) as int)) == parts,
{
    let n = parts.len();
    let start = 4 * (n + 1) as int;
    let b = layout(parts, start);
    let size = number_bytes(b.last() as nat);
    let table = offsets_bytes(b, n);
    let prefix = size + table;
    lemma_offsets_bytes_len(b, n);
    assert(size.len() == 4);
    assert(prefix.len() == start);
    lemma_pieces_of_concat(prefix, parts, Seq::empty());
    assert(prefix + concat(parts) + Seq::<u8>::empty() == table_encoding(parts)) by {
        assert(prefix + concat(parts) + Seq::<u8>::empty() =~= size + table + concat(parts));
    }
}

/// The encoding of entries passes the checks of the header, and cutting it
/// at the boundaries that its table holds gives the entries back.
pub proof fn lemma_table_encoding(parts: Seq<Seq<u8>>)
    requires
        table_size(parts) <= u32::MAX,
    ensures
        table_encoding(parts).len() == table_size(parts),
        header_ok(table_encoding(parts), parts.len()),
        boundaries(table_encoding(parts), parts.len()) == layout(
            parts,
            4 * (parts.len() + 1) as int,
        ),
        non_decreasing(boundaries(table_encoding(parts), parts.len())),
        pieces(table_encoding(parts), boundaries(table_encoding(parts), parts.len())) == parts,
{
    lemma_table_encoding_len(parts);
    lemma_table_encoding_header(parts);
    lemma_table_encoding_pieces(parts);
    lemma_layout_non_decreasing(parts, 4 * (parts.len() + 1) as int);
}

/// The encoding of no entries is the header alone: the bytes 4, 0, 0, 0.
pub proof fn lemma_table_encoding_empty()
    ensures
        table_encoding(Seq::empty()) == number_bytes(4),
        table_encoding(Seq::empty()) == seq![4u8, 0u8, 0u8, 0u8],
        table_size(Seq::empty()) == 4,
{
    let none = Seq::<Seq<u8>>::empty();
    assert(none.take(0) =~= none);
    assert(offset_pieces(layout(none, 4), 0) =~= Seq::<Seq<u8>>::empty());
    assert(table_encoding(none) =~= number_bytes(4));
    lemma_bytes_of_four();
}

/// The lengths of the first `k` pieces of a buffer add up to the distance
/// between the first boundary and boundary `k`.
pub proof fn lemma_total_len_pieces(bytes: Seq<u8>, bounds: Seq<int>, k: int)
    requires
        non_decreasing(bounds),
        0 <= k < bounds.len(),
        0 <= bounds[0],
        bounds.last() <= bytes.len(),
    ensures
        total_len(pieces(bytes, bounds).take(k)) == bounds[k] - bounds[0],
    decreases k,
{
    let ps = pieces(bytes, bounds);
    if k > 0 {
        lemma_total_len_pieces(bytes, bounds, k - 1);
        lemma_total_len_take(ps, k - 1, k);
        assert(bounds[0] <= bounds[k - 1] <= bounds[k] <= bounds[bounds.len() - 1]);
    } else {
        assert(ps.take(0) =~= Seq::<Seq<u8>>::empty());
    }
}

/// Cutting a buffer at boundaries and laying the pieces back to back from
/// the first boundary on gives the same boundaries.
pub proof fn lemma_layout_of_pieces(bytes: Seq<u8>, bounds: Seq<int>)
    requires
        non_decreasing(bounds),
        bounds.len() >= 1,
        0 <= bounds[0],
        bounds.last() <= bytes.len(),
    ensures
        layout(pieces(bytes, bounds), bounds[0]) == bounds,
        total_len(pieces(bytes, bounds)) == bounds.last() - bounds[0],
{
    let parts = pieces(bytes, bounds);
    assert forall|k: int| 0 <= k < bounds.len() implies #[trigger] layout(parts, bounds[0])[k]
        == bounds[k] by {
        lemma_total_len_pieces(bytes, bounds, k);
    }
    assert(layout(parts, bounds[0]) =~= bounds);
    assert(parts.take(parts.len() as int) =~= parts);
}

/// The offset table of an encoding is the encoding of its boundaries.
pub proof fn lemma_offsets_of_table(bytes: Seq<u8>, count: nat)
    requires
        4 * (count + 1) <= bytes.len(),
    ensures
        offsets_bytes(boundaries(bytes, count), count) == bytes.subrange(
            4,
            4 * (count + 1) as int,
        ),
{
    let b = boundaries(bytes, count);
    let table_bounds = uniform_bounds(4, 4, count);
    lemma_uniform_bounds(4, 4, count);
    assert forall|k: int| 0 <= k < count implies #[trigger] offset_pieces(b, count)[k] == pieces(
        bytes,
        table_bounds,
    )[k] by {
        lemma_number_bytes_of_number_at(bytes, 4 * (k + 1));
    }
    assert(offset_pieces(b, count) =~= pieces(bytes, table_bounds));
    lemma_concat_pieces(bytes, table_bounds);
}

/// In an encoding whose header passes the checks and whose boundaries do
/// not decrease, the total size, the offset table and the entries stand one
/// after the other, each as the encoding of what was read from it.
pub proof fn lemma_table_sections(bytes: Seq<u8>, count: nat)
    requires
        header_ok(bytes, count),
        non_decreasing(boundaries(bytes, count)),
    ensures
        layout(pieces(bytes, boundaries(bytes, count)), 4 * (count + 1) as int) == boundaries(
            bytes,
            count,
        ),
        boundaries(bytes, count).last() == bytes.len(),
        4 * (count + 1) <= bytes.len(),
        number_bytes(bytes.len()) == bytes.subrange(0, 4),
        offsets_bytes(boundaries(bytes, count), count) == bytes.subrange(
            4,
            4 * (count + 1) as int,
        ),
        concat(pieces(bytes, boundaries(bytes, count))) == bytes.subrange(
            4 * (count + 1) as int,
            bytes.len() as int,
        ),
        total_len(pieces(bytes, boundaries(bytes, count))) == bytes.len() - 4 * (count + 1),
{
    let b = boundaries(bytes, count);
    lemma_header_ok(Seq::empty(), bytes);
    assert(b[0] == 4 * (count + 1));
    assert(b.last() == bytes.len());
    lemma_layout_of_pieces(bytes, b);
    lemma_number_bytes_of_number_at(bytes, 0);
    lemma_offsets_of_table(bytes, count);
    lemma_concat_pieces(bytes, b);
}

/// An encoding whose header passes the checks and whose boundaries do not
/// decrease is the encoding of its own entries.
pub proof fn lemma_table_canonical(bytes: Seq<u8>, count: nat)
    requires
        header_ok(bytes, count),
        non_decreasing(boundaries(bytes, count)),
    ensures
        table_encoding(pieces(bytes, boundaries(bytes, count))) == bytes,
        table_size(pieces(bytes, boundaries(bytes, count))) == bytes.len(),
{
    let start = 4 * (count + 1) as int;
    lemma_table_sections(bytes, count);
    assert(bytes.subrange(0, 4) + bytes.subrange(4, start) + bytes.subrange(
        start,
        bytes.len() as int,
    ) =~= bytes);
}

/// The encoding of the given entries, where a `Number` holds its size.
pub fn encode_table(items: &Vec<Vec<u8>>) -> (r: Option<Vec<u8>>)
    ensures
        r is Some <==> table_size(views(items@)) <= u32::MAX,
        r matches Some(bytes) ==> bytes@ == table_encoding(views(items@)),
{
    let count = items.len();
    if count >= 0x3fff_ffff {
        return None;
    }
    let ghost parts = views(items@);
    let ghost start = 4 * (count + 1) as int;
    let ghost bounds = layout(parts, start);
    let ghost nums = offset_pieces(bounds, count as nat);
    let mut table: Vec<u8> = Vec::with_capacity(HEADER_SIZE * count);
    let mut offset: usize = HEADER_SIZE * (count + 1);
    let mut k: usize = 0;
    proof {
        assert(parts.take(0) =~= Seq::<Seq<u8>>::empty());
        assert(nums.take(0) =~= Seq::<Seq<u8>>::empty());
        lemma_total_len_take(parts, 0, count as int);
    }
    while k < count
        invariant
            k <= count,
            count == items.len(),
            parts == views(items@),
            start == 4 * (count + 1),
            bounds == layout(parts, start),
            nums == offset_pieces(bounds, count as nat),
            offset == bounds[k as int],
            offset <= u32::MAX,
            table@ == concat(nums.take(k as int)),
        decreases count - k,
    {
        let len = items[k].len();
        proof {
            lemma_total_len_take(parts, k as int, count as int);
            lemma_total_len_take(parts, k + 1, count as int);
            assert(nums.take(k + 1) =~= nums.take(k as int).push(nums[k as int]));
            lemma_concat_push(nums.take(k as int), nums[k as int]);
        }
        if len > u32::MAX as usize - offset {
            return None;
        }
        let encoded = pack_number(offset as u32);
        table.extend_from_slice(encoded.as_slice());
        assert(table@ =~= concat(nums.take(k + 1)));
        offset += len;
        k += 1;
    }
    proof {
        assert(nums.take(count as int) =~= nums);
        lemma_total_len_take(parts, count as int, count as int);
    }
    let mut bytes = pack_number(offset as u32);
    bytes.extend_from_slice(table.as_slice());
    assert(bytes@ =~= number_bytes(bounds.last() as nat) + offsets_bytes(bounds, count as nat));
    append_all(&mut bytes, items);
    Some(bytes)
}

} // verus!

use vstd::prelude::*;

verus! {

/// The length of the zero-terminated string at the start of `text`, counting at most
/// `limit` bytes: the index of the first zero byte, or `limit` if none comes before it.
pub open spec fn c_string_len(text: Seq<u8>, limit: int) -> int
    decreases limit,
{
    if limit <= 0 || text.len() == 0 || text[0] == 0 {
        0
    } else {
        1 + c_string_len(text.drop_first(), limit - 1)
    }
}

/// `text` holds a zero byte among its first `limit` bytes, or is at least `limit` long:
/// the bytes that a bounded length count reads all exist.
pub open spec fn bounded_string(text: Seq<u8>, limit: int) -> bool {
    limit <= text.len() || exists|i: int| 0 <= i < limit && i < text.len() && text[i] == 0
}

proof fn lemma_c_string_len_step(text: Seq<u8>, limit: int, i: int)
    requires
        0 <= i < limit,
        i < text.len(),
        forall|j: int| 0 <= j < i ==> text[j] != 0,
    ensures
        c_string_len(text, limit) == i + c_string_len(text.subrange(i, text.len() as int), limit - i),
    decreases i,
{
    if i > 0 {
        lemma_c_string_len_step(text.drop_first(), limit - 1, i - 1);
        assert(text.drop_first().subrange(i - 1, text.drop_first().len() as int) =~= text.subrange(
            i,
            text.len() as int,
        ));
    } else {
        assert(text.subrange(0, text.len() as int) =~= text);
    }
}

/// Counts the bytes of `text` before the first zero byte, stopping at `limit`.
pub fn strlen(text: &[u8], limit: usize) -> (len: usize)
    requires
        bounded_string(text@, limit as int),
    ensures
        len == c_string_len(text@, limit as int),
        len <= limit,
        len < limit ==> len < text@.len() && text@[len as int] == 0,
        forall|j: int| 0 <= j < len ==> text@[j] != 0,
{
    let mut i: usize = 0;
    while i < limit && i < text.len() && text[i] != 0
        invariant
            i <= limit,
            i <= text@.len(),
            bounded_string(text@, limit as int),
            forall|j: int| 0 <= j < i ==> text@[j] != 0,
        decreases limit - i,
    {
        i = i + 1;
    }
    proof {
        if i < limit && i < text@.len() {
            lemma_c_string_len_step(text@, limit as int, i as int);
        } else if i == limit {
            if i > 0 {
                lemma_c_string_len_step(text@, limit as int, (i - 1) as int);
                let rest = text@.subrange(i - 1, text@.len() as int);
                reveal_with_fuel(c_string_len, 2);
                assert(c_string_len(rest, 1) == 1);
            }
        } else {
            // i == text.len() < limit: a zero byte must lie before the end.
            assert(false);
        }
    }
    i
}

/// Copies the first `size` bytes of `src` to the start of `dest`.
pub fn memcpy(dest: &mut [u8], src: &[u8], size: usize)
    requires
        size <= old(dest)@.len(),
        size <= src@.len(),
    ensures
        final(dest)@ == src@.take(size as int) + old(dest)@.skip(size as int),
{
    let mut i: usize = 0;
    while i < size
        invariant
            size <= dest@.len(),
            size <= src@.len(),
            dest@.len() == old(dest)@.len(),
            i <= size,
            forall|j: int| 0 <= j < i ==> dest@[j] == src@[j],
            forall|j: int| i <= j < dest@.len() ==> dest@[j] == old(dest)@[j],
        decreases size - i,
    {
        dest[i] = src[i];
        i = i + 1;
    }
    assert(dest@ =~= src@.take(size as int) + old(dest)@.skip(size as int));
}

/// Sets the first `size` bytes of `buffer` to the low byte of `fill`.
pub fn memset(buffer: &mut [u8], fill: i32, size: usize)
    requires
        size <= old(buffer)@.len(),
    ensures
        final(buffer)@ == Seq::new(size as nat, |j: int| fill as u8) + old(buffer)@.skip(size as int),
{
    let byte = fill as u8;
    let mut i: usize = 0;
    while i < size
        invariant
            size <= buffer@.len(),
            buffer@.len() == old(buffer)@.len(),
            byte == fill as u8,
            i <= size,
            forall|j: int| 0 <= j < i ==> buffer@[j] == byte,
            forall|j: int| i <= j < buffer@.len() ==> buffer@[j] == old(buffer)@[j],
        decreases size - i,
    {
        buffer[i] = byte;
        i = i + 1;
    }
    assert(buffer@ =~= Seq::new(size as nat, |j: int| fill as u8) + old(buffer)@.skip(size as int));
}

/// The sign of the first difference between `a` and `b` within their first `n` bytes,
/// looking from index `i`: -1 if `a` holds the smaller byte there, 1 if the larger, 0 if
/// the two agree on all of them.
pub open spec fn order_from(a: Seq<u8>, b: Seq<u8>, i: int, n: int) -> i32
    decreases n - i,
{
    if i >= n {
        0i32
    } else if a[i] != b[i] {
        if a[i] < b[i] {
            -1i32
        } else {
            1i32
        }
    } else {
        order_from(a, b, i + 1, n)
    }
}

/// The byte-wise order of the first `size` bytes of `a` and `b`.
pub open spec fn byte_order(a: Seq<u8>, b: Seq<u8>, size: usize) -> i32 {
    order_from(a, b, 0, size as int)
}

fn first_difference_order(s1: &[u8], s2: &[u8], size: usize) -> (r: i32)
    requires
        size <= s1@.len(),
        size <= s2@.len(),
    ensures
        r == byte_order(s1@, s2@, size),
{
    let mut i: usize = 0;
    while i < size
        invariant
            size <= s1@.len(),
            size <= s2@.len(),
            i <= size,
            order_from(s1@, s2@, i as int, size as int) == order_from(s1@, s2@, 0, size as int),
        decreases size - i,
    {
        if s1[i] != s2[i] {
            return if s1[i] < s2[i] {
                -1
            } else {
                1
            };
        }
        i = i + 1;
    }
    0
}

/// Compares the first `size` bytes of `s1` and `s2`: -1 if `s1` holds the smaller byte at
/// the first place where they differ, 1 if it holds the larger, 0 if they are equal.
pub fn memcmp(s1: &[u8], s2: &[u8], size: usize) -> (r: i32)
    requires
        size <= s1@.len(),
        size <= s2@.len(),
    ensures
        r == byte_order(s1@, s2@, size),
{
    first_difference_order(s1, s2, size)
}

proof fn lemma_order_from_antisymmetric(a: Seq<u8>, b: Seq<u8>, i: int, n: int)
    ensures
        order_from(a, b, i, n) == -order_from(b, a, i, n),
    decreases n - i,
{
    if i < n && a[i] == b[i] {
        lemma_order_from_antisymmetric(a, b, i + 1, n);
    }
}

proof fn lemma_order_from_equal_prefix(a: Seq<u8>, b: Seq<u8>, i: int, n: int)
    requires
        forall|j: int| i <= j < n ==> a[j] == b[j],
    ensures
        order_from(a, b, i, n) == 0,
    decreases n - i,
{
    if i < n {
        lemma_order_from_equal_prefix(a, b, i + 1, n);
    }
}

/// Swapping the two operands of a byte comparison negates its result.
pub proof fn lemma_byte_order_antisymmetric(a: Seq<u8>, b: Seq<u8>, size: usize)
    ensures
        byte_order(a, b, size) == -byte_order(b, a, size),
{
    lemma_order_from_antisymmetric(a, b, 0, size as int);
}

/// Any bytes compare equal to themselves.
pub proof fn lemma_byte_order_reflexive(a: Seq<u8>, size: usize)
    ensures
        byte_order(a, a, size) == 0,
{
    lemma_order_from_equal_prefix(a, a, 0, size as int);
}

/// After `memcpy` has copied `size` bytes, the comparison of the first `size` bytes of the
/// destination with those of the source finds them equal.
pub proof fn lemma_copy_then_compare_equal(dest: Seq<u8>, src: Seq<u8>, size: usize)
    requires
        size <= dest.len(),
        size <= src.len(),
    ensures
        byte_order(src.take(size as int) + dest.skip(size as int), src, size) == 0,
{
    let copied = src.take(size as int) + dest.skip(size as int);
    assert forall|j: int| 0 <= j < size implies copied[j] == src[j] by {}
    lemma_order_from_equal_prefix(copied, src, 0, size as int);
}

/// Filling the first `size` bytes with a non-zero byte, in front of a zero byte, makes a
/// string exactly `size` bytes long.
pub proof fn lemma_memset_then_strlen(before: Seq<u8>, fill: i32, size: usize, limit: int)
    requires
        size < before.len(),
        size < limit,
        fill as u8 != 0,
        before[size as int] == 0,
    ensures
        c_string_len(Seq::new(size as nat, |j: int| fill as u8) + before.skip(size as int), limit)
            == size,
{
    let filled = Seq::new(size as nat, |j: int| fill as u8) + before.skip(size as int);
    assert forall|j: int| 0 <= j < size implies filled[j] != 0 by {}
    lemma_c_string_len_step(filled, limit, size as int);
    assert(filled.subrange(size as int, filled.len() as int)[0] == 0);
}

proof fn lemma_order_from_first_difference(a: Seq<u8>, b: Seq<u8>, start: int, i: int, n: int)
    requires
        0 <= start <= i < n,
        forall|j: int| start <= j < i ==> a[j] == b[j],
        a[i] != b[i],
    ensures
        order_from(a, b, start, n) == (if a[i] < b[i] {
            -1i32
        } else {
            1i32
        }),
    decreases i - start,
{
    if start < i {
        lemma_order_from_first_difference(a, b, start + 1, i, n);
    }
}

/// The comparison is decided by the first place where the two buffers differ, whatever
/// bytes (zero bytes included) come before it: -1 when `a` holds the smaller byte there,
/// 1 when the larger. It is 0 exactly when the first `size` bytes are all equal.
pub proof fn lemma_byte_order_first_difference(a: Seq<u8>, b: Seq<u8>, size: usize, i: int)
    requires
        size <= a.len(),
        size <= b.len(),
        0 <= i < size,
        forall|j: int| 0 <= j < i ==> a[j] == b[j],
        a[i] != b[i],
    ensures
        a[i] < b[i] ==> byte_order(a, b, size) == -1,
        a[i] > b[i] ==> byte_order(a, b, size) == 1,
{
    lemma_order_from_first_difference(a, b, 0, i, size as int);
}

/// The comparison gives 0 exactly when the first `size` bytes of the two buffers are equal.
pub proof fn lemma_byte_order_zero_iff_equal(a: Seq<u8>, b: Seq<u8>, size: usize)
    requires
        size <= a.len(),
        size <= b.len(),
    ensures
        byte_order(a, b, size) == 0 <==> (forall|j: int| 0 <= j < size ==> a[j] == b[j]),
{
    if forall|j: int| 0 <= j < size ==> a[j] == b[j] {
        lemma_order_from_equal_prefix(a, b, 0, size as int);
    } else {
        let d = choose|j: int| 0 <= j < size && a[j] != b[j];
        let first = first_index_differing(a, b, d);
        lemma_order_from_first_difference(a, b, 0, first, size as int);
    }
}

/// The first index at or below `d` where `a` and `b` differ, given that they differ at `d`.
proof fn first_index_differing(a: Seq<u8>, b: Seq<u8>, d: int) -> (first: int)
    requires
        0 <= d < a.len(),
        d < b.len(),
        a[d] != b[d],
    ensures
        0 <= first <= d,
        a[first] != b[first],
        forall|j: int| 0 <= j < first ==> a[j] == b[j],
    decreases d,
{
    if exists|j: int| 0 <= j < d && a[j] != b[j] {
        let e = choose|j: int| 0 <= j < d && a[j] != b[j];
        first_index_differing(a, b, e)
    } else {
        d
    }
}

/// The bounded length of a zero-terminated string is the index of its first zero byte, or
/// the limit when no zero byte comes before it: no byte before it is zero, and unless it is
/// the limit, the byte at it is.
pub proof fn lemma_c_string_len_is_first_zero(text: Seq<u8>, limit: int)
    requires
        0 <= limit,
        bounded_string(text, limit),
    ensures
        0 <= c_string_len(text, limit) <= limit,
        forall|j: int| 0 <= j < c_string_len(text, limit) ==> text[j] != 0,
        c_string_len(text, limit) < limit ==> c_string_len(text, limit) < text.len() && text[c_string_len(text, limit)] == 0,
    decreases limit,
{
    if limit > 0 && text.len() > 0 && text[0] != 0 {
        let rest = text.drop_first();
        assert(bounded_string(rest, limit - 1)) by {
            if !(limit - 1 <= rest.len()) {
                let i = choose|i: int| 0 <= i < limit && i < text.len() && text[i] == 0;
                assert(i > 0);
                assert(rest[i - 1] == 0);
            }
        }
        lemma_c_string_len_is_first_zero(rest, limit - 1);
        assert forall|j: int| 0 <= j < c_string_len(text, limit) implies text[j] != 0 by {
            if j > 0 {
                assert(text[j] == rest[j - 1]);
            }
        }
    } else if limit > 0 && text.len() == 0 {
        let i = choose|i: int| 0 <= i < limit && i < text.len() && text[i] == 0;
    }
}

} // verus!

use vstd::prelude::*;
use vstd::string::StringSliceAdditionalSpecFns;
use crate::support::{c_string_len, bounded_string};

verus! {

// Access modes of `open`.
pub const O_RDONLY: i32 = 0o00000000;
pub const O_WRONLY: i32 = 0o00000001;
pub const O_RDWR: i32 = 0o00000002;

// Flags of `open`.
pub const O_CREAT: i32 = 0o00000100;
pub const O_TRUNC: i32 = 0o00001000;
pub const O_APPEND: i32 = 0o00002000;

/// Length of the buffer that holds a zero-terminated path.
pub const PATH_BUFFER_LEN: usize = 1024;

/// Size of the `struct stat` that `stat` and `fstat` fill in.
pub const STAT_LEN: usize = 144;

/// Offset of the signed 64-bit file size inside `struct stat`.
pub const STAT_SIZE_OFFSET: usize = 48;

/// The bytes of `path` followed by zeros, as a buffer of `PATH_BUFFER_LEN` bytes.
pub open spec fn zero_padded(path: Seq<u8>) -> Seq<u8> {
    Seq::new(PATH_BUFFER_LEN as nat, |i: int| if i < path.len() { path[i] } else { 0u8 })
}

/// Copies the bytes of `path` into a zero-filled buffer of `PATH_BUFFER_LEN` bytes: the
/// path as a zero-terminated string. A path of `PATH_BUFFER_LEN` bytes or more would leave
/// no room for the terminator, so it is not accepted.
pub fn str_to_zero_padded(path: &str) -> (buffer: [u8; 1024])
    requires
        path.spec_bytes().len() < PATH_BUFFER_LEN,
    ensures
        buffer@ == zero_padded(path.spec_bytes()),
        buffer@[path.spec_bytes().len() as int] == 0,
{
    let bytes = path.as_bytes();
    let mut path_buffer: [u8; 1024] = [0u8; 1024];
    let mut i: usize = 0;
    while i < bytes.len()
        invariant
            bytes@ == path.spec_bytes(),
            bytes@.len() <= PATH_BUFFER_LEN,
            i <= bytes@.len(),
            path_buffer@.len() == PATH_BUFFER_LEN,
            forall|j: int| 0 <= j < i ==> path_buffer@[j] == bytes@[j],
            forall|j: int| i <= j < PATH_BUFFER_LEN ==> path_buffer@[j] == 0u8,
        decreases bytes@.len() - i,
    {
        path_buffer[i] = bytes[i];
        i = i + 1;
    }
    assert(path_buffer@ =~= zero_padded(path.spec_bytes()));
    path_buffer
}

/// The unsigned number that the bytes `b` encode, least significant byte first.
pub open spec fn le_value(b: Seq<u8>) -> nat
    decreases b.len(),
{
    if b.len() == 0 {
        0
    } else {
        b[0] as nat + 256 * le_value(b.drop_first())
    }
}

/// 256 to the power `n`.
pub open spec fn pow256(n: nat) -> nat
    decreases n,
{
    if n == 0 {
        1
    } else {
        256 * pow256((n - 1) as nat)
    }
}

/// The value that a two's-complement 64-bit word with unsigned reading `v` stands for.
pub open spec fn as_signed64(v: nat) -> int {
    if v < 0x8000_0000_0000_0000 {
        v as int
    } else {
        v - 0x1_0000_0000_0000_0000
    }
}

/// The file size recorded in a `struct stat`: the signed 64-bit little-endian word at
/// `STAT_SIZE_OFFSET` (the layout of x86-64 Linux).
pub open spec fn stat_size(stat: Seq<u8>) -> int {
    as_signed64(le_value(stat.subrange(STAT_SIZE_OFFSET as int, STAT_SIZE_OFFSET + 8)))
}

proof fn lemma_le_value_bound(b: Seq<u8>)
    ensures
        le_value(b) < pow256(b.len()),
    decreases b.len(),
{
    if b.len() > 0 {
        lemma_le_value_bound(b.drop_first());
        let rest = le_value(b.drop_first());
        let p = pow256((b.len() - 1) as nat);
        assert(b[0] as nat + 256 * rest < 256 * p) by (nonlinear_arith)
            requires
                rest < p,
                b[0] < 256,
        ;
    }
}

proof fn lemma_pow256_8()
    ensures
        pow256(8) == 0x1_0000_0000_0000_0000,
{
    reveal_with_fuel(pow256, 9);
}

proof fn lemma_signed_cast(v: u64)
    ensures
        v as i64 == as_signed64(v as nat),
{
    if v < 0x8000_0000_0000_0000u64 {
        assert(v as i64 == v as int) by (bit_vector)
            requires
                v < 0x8000_0000_0000_0000u64,
        ;
    } else {
        assert(v as i64 == v - 0x1_0000_0000_0000_0000) by (bit_vector)
            requires
                v >= 0x8000_0000_0000_0000u64,
        ;
    }
}

/// Reads the file size out of a `struct stat`.
pub fn get_filesize(stat: &[u8; 144]) -> (size: i64)
    ensures
        size == stat_size(stat@),
{
    let ghost word = stat@.subrange(STAT_SIZE_OFFSET as int, STAT_SIZE_OFFSET + 8);
    let mut value: u64 = 0;
    let mut k: usize = 8;
    while k > 0
        invariant
            stat@.len() == STAT_LEN,
            word == stat@.subrange(STAT_SIZE_OFFSET as int, STAT_SIZE_OFFSET + 8),
            k <= 8,
            value as nat == le_value(word.subrange(k as int, 8)),
        decreases k,
    {
        k = k - 1;
        let ghost tail = word.subrange(k as int, 8);
        assert(tail.drop_first() =~= word.subrange(k + 1, 8));
        proof {
            lemma_le_value_bound(word.subrange(k + 1, 8));
            lemma_pow256_8();
            assert(pow256((8 - (k + 1)) as nat) <= pow256(7)) by {
                lemma_pow256_mono((8 - (k + 1)) as nat, 7);
            }
            reveal_with_fuel(pow256, 9);
            assert(value * 256 + 255 < 0x1_0000_0000_0000_0000) by (nonlinear_arith)
                requires
                    value < pow256(7),
                    pow256(7) == 0x100_0000_0000_0000,
            ;
        }
        value = value * 256 + stat[STAT_SIZE_OFFSET + k] as u64;
    }
    assert(word.subrange(0, 8) =~= word);
    proof {
        lemma_signed_cast(value);
    }
    value as i64
}

proof fn lemma_pow256_mono(a: nat, b: nat)
    requires
        a <= b,
    ensures
        pow256(a) <= pow256(b),
    decreases b,
{
    if a < b {
        lemma_pow256_mono(a, (b - 1) as nat);
    }
}

/// The `len` bytes that write the number `n` least significant byte first: byte `k` is
/// `n / 256^k % 256`.
pub open spec fn le_bytes(n: nat, len: nat) -> Seq<u8>
    decreases len,
{
    if len == 0 {
        Seq::empty()
    } else {
        seq![(n % 256) as u8] + le_bytes(n / 256, (len - 1) as nat)
    }
}

proof fn lemma_le_value_of_le_bytes(n: nat, len: nat)
    requires
        n < pow256(len),
    ensures
        le_bytes(n, len).len() == len,
        le_value(le_bytes(n, len)) == n,
    decreases len,
{
    if len > 0 {
        let b = le_bytes(n, len);
        let p = pow256((len - 1) as nat);
        assert(n / 256 < p) by (nonlinear_arith)
            requires
                n < 256 * p,
        ;
        lemma_le_value_of_le_bytes(n / 256, (len - 1) as nat);
        assert(b.drop_first() =~= le_bytes(n / 256, (len - 1) as nat));
        assert(n == n % 256 + 256 * (n / 256)) by (nonlinear_arith);
    }
}

/// The size read from a `struct stat` is exactly the number written there: whatever signed
/// 64-bit value `x` (0 and negative values included) the 8 bytes at offset 48 hold, least
/// significant byte first, it is `x` that is read.
pub proof fn lemma_stat_size_reads_written_value(stat: Seq<u8>, x: i64)
    requires
        stat.len() == STAT_LEN,
        stat.subrange(STAT_SIZE_OFFSET as int, STAT_SIZE_OFFSET + 8) == le_bytes(
            (x as u64) as nat,
            8,
        ),
    ensures
        stat_size(stat) == x,
{
    let u = x as u64;
    lemma_pow256_8();
    lemma_le_value_of_le_bytes(u as nat, 8);
    if x >= 0 {
        assert(u == x) by (bit_vector)
            requires
                x >= 0i64,
                u == x as u64,
        ;
    } else {
        assert(u == x + 0x1_0000_0000_0000_0000) by (bit_vector)
            requires
                x < 0i64,
                u == x as u64,
        ;
    }
}

/// The outcome of a `stat`-family call: the filled-in buffer when the call returned 0,
/// nothing otherwise.
pub fn stat_syscall(result: u64, stat: [u8; 144]) -> (outcome: Option<[u8; 144]>)
    ensures
        outcome == (if result == 0 { Some(stat) } else { None::<[u8; 144]> }),
{
    if result == 0 {
        Some(stat)
    } else {
        None
    }
}

/// The size of the file named by a path, given what the `stat` call on the zero-padded
/// path returned and the buffer it filled in.
pub fn stat_filesize(result: u64, stat: [u8; 144]) -> (size: Option<i64>)
    ensures
        result == 0 ==> size == Some(stat_size(stat@) as i64),
        result != 0 ==> size is None,
{
    let v = stat_syscall(result, stat);
    match v {
        Some(s) => Some(get_filesize(&s)),
        None => None,
    }
}

/// The size of an open file, given what the `fstat` call returned and the buffer it
/// filled in.
pub fn fstat_filesize(result: u64, stat: [u8; 144]) -> (size: Option<i64>)
    ensures
        result == 0 ==> size == Some(stat_size(stat@) as i64),
        result != 0 ==> size is None,
{
    let v = stat_syscall(result, stat);
    match v {
        Some(s) => Some(get_filesize(&s)),
        None => None,
    }
}

/// The break that `sbrk` asks `brk` for: the current break moved by `delta` bytes, with
/// the current break read as a signed 64-bit number.
pub open spec fn sbrk_target(current: u64, delta: i64) -> u64 {
    (delta + (current as i64)) as u64
}

/// Computes the new program break for growing (or, with a negative `delta`, shrinking)
/// the heap by `delta` bytes from the `current` break.
pub fn sbrk(current: u64, delta: i64) -> (target: u64)
    requires
        i64::MIN <= delta + (current as i64) <= i64::MAX,
    ensures
        target == sbrk_target(current, delta),
        current <= i64::MAX && 0 <= delta + current ==> target == delta + current,
{
    let new = delta + current as i64;
    proof {
        if current <= i64::MAX {
            assert(current as i64 == current) by (bit_vector)
                requires
                    current <= 0x7fff_ffff_ffff_ffffu64,
            ;
        }
    }
    new as u64
}

/// Asking for no change gives back the current break.
pub proof fn lemma_sbrk_zero_keeps_break(current: u64)
    ensures
        sbrk_target(current, 0) == current,
{
    assert((0 + (current as i64)) as u64 == current) by (bit_vector);
}

/// Growing the heap by `delta` and then shrinking it by `delta` returns to the break
/// where it started.
pub proof fn lemma_sbrk_grow_shrink(current: u64, delta: i64)
    requires
        i64::MIN <= delta + (current as i64) <= i64::MAX,
        delta > i64::MIN,
    ensures
        sbrk_target(sbrk_target(current, delta), (-delta) as i64) == current,
{
    let c = current as i64;
    let sum = (delta + c) as i64;
    let grown = sbrk_target(current, delta);
    assert(grown == sum as u64);
    assert((sum as u64) as i64 == sum) by (bit_vector);
    assert((c as u64) == current) by (bit_vector)
        requires
            c == current as i64,
    ;
    assert((-delta) as i64 + sum == c);
}

/// A word below 2^63 reads the same as a signed number.
pub proof fn lemma_u64_as_i64(x: u64)
    requires
        x <= i64::MAX,
    ensures
        x as i64 == x,
{
    assert(x as i64 == x) by (bit_vector)
        requires
            x <= 0x7fff_ffff_ffff_ffffu64,
    ;
}

proof fn lemma_c_string_len_of_prefix(text: Seq<u8>, n: int, limit: int)
    requires
        0 <= n < text.len(),
        n < limit,
        text[n] == 0,
        forall|j: int| 0 <= j < n ==> text[j] != 0,
    ensures
        c_string_len(text, limit) == n,
    decreases n,
{
    if n > 0 {
        lemma_c_string_len_of_prefix(text.drop_first(), n - 1, limit - 1);
    }
}

/// A path without zero bytes that is shorter than the buffer comes back whole from the
/// zero-padded buffer: the buffer is a terminated string, and the string it holds is as
/// long as the path.
pub proof fn lemma_zero_padded_is_c_string(path: Seq<u8>)
    requires
        path.len() < PATH_BUFFER_LEN,
        forall|j: int| 0 <= j < path.len() ==> path[j] != 0,
    ensures
        bounded_string(zero_padded(path), PATH_BUFFER_LEN as int),
        c_string_len(zero_padded(path), PATH_BUFFER_LEN as int) == path.len(),
        zero_padded(path).take(path.len() as int) == path,
{
    let b = zero_padded(path);
    lemma_c_string_len_of_prefix(b, path.len() as int, PATH_BUFFER_LEN as int);
    assert(b.take(path.len() as int) =~= path);
}

} // verus!

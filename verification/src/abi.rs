use vstd::prelude::*;
use vstd::string::StringSliceAdditionalSpecFns;
use vstd::utf8::valid_utf8;
use crate::support::{bounded_string, c_string_len};
use crate::util::{utf8_text, void_as_bytes, Utf8Failure, longest_valid_prefix};

verus! {

// Types of auxiliary vector entries.
pub const AT_NULL: i32 = 0;
pub const AT_EXECFD: i32 = 2;
pub const AT_PHDR: i32 = 3;
pub const AT_PHENT: i32 = 4;
pub const AT_PHNUM: i32 = 5;
pub const AT_ENTRY: i32 = 9;
pub const AT_UID: i32 = 11;
pub const AT_PLATFORM: i32 = 15;
pub const AT_BASE_PLATFORM: i32 = 24;
pub const AT_EXECFN: i32 = 31;

/// One entry of the auxiliary vector: its type, and its value word read as a signed number
/// (a pointer-valued entry holds the address in the same bits).
#[derive(Clone, Copy, Debug)]
pub struct AuxEntry {
    pub a_type: i32,
    pub a_val: i64,
}

/// How an auxiliary entry's value is shown when the entry is printed.
#[derive(Clone, Copy, Debug, PartialEq, Eq, Structural)]
pub enum AuxRendering {
    /// The terminating entry: shown as 0.
    Zero,
    /// A number, shown in hexadecimal.
    Hex,
    /// An address.
    Pointer,
    /// The address of a zero-terminated string, shown as that string.
    Text,
    /// An entry of another type: its type number and its value in hexadecimal.
    Other,
}

/// The name under which an entry of type `t` is printed.
pub open spec fn aux_label(t: i32) -> Seq<char> {
    if t == AT_NULL {
        "NULL"@
    } else if t == AT_EXECFD {
        "AT_EXECFD"@
    } else if t == AT_PHDR {
        "AT_PHDR"@
    } else if t == AT_PHENT {
        "AT_PHENT"@
    } else if t == AT_PHNUM {
        "AT_PHNUM"@
    } else if t == AT_UID {
        "AT_UID"@
    } else if t == AT_ENTRY {
        "AT_ENTRY"@
    } else if t == AT_EXECFN {
        "AT_EXECFN"@
    } else if t == AT_PLATFORM {
        "AT_PLATFORM"@
    } else if t == AT_BASE_PLATFORM {
        "AT_BASE_PLATFORM"@
    } else {
        "-"@
    }
}

/// How the value of an entry of type `t` is printed.
pub open spec fn aux_rendering(t: i32) -> AuxRendering {
    if t == AT_NULL {
        AuxRendering::Zero
    } else if t == AT_EXECFD || t == AT_PHENT || t == AT_PHNUM || t == AT_UID {
        AuxRendering::Hex
    } else if t == AT_PHDR || t == AT_ENTRY {
        AuxRendering::Pointer
    } else if t == AT_EXECFN || t == AT_PLATFORM || t == AT_BASE_PLATFORM {
        AuxRendering::Text
    } else {
        AuxRendering::Other
    }
}

impl AuxEntry {
    /// The name under which the entry is printed.
    pub fn label(&self) -> (label: &'static str)
        ensures
            label@ == aux_label(self.a_type),
    {
        let t = self.a_type;
        if t == AT_NULL {
            "NULL"
        } else if t == AT_EXECFD {
            "AT_EXECFD"
        } else if t == AT_PHDR {
            "AT_PHDR"
        } else if t == AT_PHENT {
            "AT_PHENT"
        } else if t == AT_PHNUM {
            "AT_PHNUM"
        } else if t == AT_UID {
            "AT_UID"
        } else if t == AT_ENTRY {
            "AT_ENTRY"
        } else if t == AT_EXECFN {
            "AT_EXECFN"
        } else if t == AT_PLATFORM {
            "AT_PLATFORM"
        } else if t == AT_BASE_PLATFORM {
            "AT_BASE_PLATFORM"
        } else {
            "-"
        }
    }

    /// How the entry's value is printed.
    pub fn rendering(&self) -> (rendering: AuxRendering)
        ensures
            rendering == aux_rendering(self.a_type),
    {
        let t = self.a_type;
        if t == AT_NULL {
            AuxRendering::Zero
        } else if t == AT_EXECFD || t == AT_PHENT || t == AT_PHNUM || t == AT_UID {
            AuxRendering::Hex
        } else if t == AT_PHDR || t == AT_ENTRY {
            AuxRendering::Pointer
        } else if t == AT_EXECFN || t == AT_PLATFORM || t == AT_BASE_PLATFORM {
            AuxRendering::Text
        } else {
            AuxRendering::Other
        }
    }
}

/// The type of an auxiliary entry whose first stack word is `w`: its low 32 bits, as a
/// signed number.
pub open spec fn word_type(w: u64) -> i32 {
    (w as u32) as i32
}

/// The number of non-zero words of `s` from `start` up to the first zero word (or the end).
pub open spec fn count_nonzero(s: Seq<u64>, start: int) -> nat
    decreases s.len() - start,
{
    if start < 0 || start >= s.len() || s[start] == 0 {
        0
    } else {
        1 + count_nonzero(s, start + 1)
    }
}

/// The number of auxiliary entries (two words each) of `s` from `start` up to the first one
/// of type `AT_NULL` (or the end).
pub open spec fn count_aux(s: Seq<u64>, start: int) -> nat
    decreases s.len() + 2 - start,
{
    if start < 0 || start >= s.len() || word_type(s[start]) == AT_NULL {
        0
    } else {
        1 + count_aux(s, start + 2)
    }
}

/// Index of the first environment pointer: after the count, the argument pointers and the
/// null pointer that ends them.
pub open spec fn env_begin(s: Seq<u64>) -> int {
    s[0] + 2
}

/// The number of environment pointers.
pub open spec fn env_entries(s: Seq<u64>) -> nat {
    count_nonzero(s, env_begin(s))
}

/// Index of the first auxiliary entry: after the environment pointers and their null
/// pointer.
pub open spec fn aux_begin(s: Seq<u64>) -> int {
    env_begin(s) + env_entries(s) + 1
}

/// The number of auxiliary entries before the `AT_NULL` entry.
pub open spec fn aux_entries(s: Seq<u64>) -> nat {
    count_aux(s, aux_begin(s))
}

/// The words `s`, read from the initial stack pointer on, hold the whole layout: the
/// argument count, the argument pointers, the environment pointers up to their null
/// pointer, and the auxiliary entries up to the type word of the `AT_NULL` entry.
pub open spec fn layout_complete(s: Seq<u64>) -> bool {
    &&& s.len() >= 1
    &&& env_begin(s) + env_entries(s) < s.len()
    &&& aux_begin(s) + 2 * aux_entries(s) < s.len()
}

/// The type of auxiliary entry `v`.
pub open spec fn aux_type_at(s: Seq<u64>, v: int) -> i32 {
    word_type(s[aux_begin(s) + 2 * v])
}

/// The value word of auxiliary entry `v`.
pub open spec fn aux_word_at(s: Seq<u64>, v: int) -> u64 {
    s[aux_begin(s) + 2 * v + 1]
}

/// The index of the first auxiliary entry from `v` on whose type is `desired`, unless the
/// `AT_NULL` entry comes first.
pub open spec fn find_aux(s: Seq<u64>, desired: i32, v: int) -> Option<int>
    decreases aux_entries(s) + 1 - v,
{
    if v < 0 || v > aux_entries(s) {
        None
    } else if aux_type_at(s, v) == desired {
        Some(v)
    } else if aux_type_at(s, v) == AT_NULL {
        None
    } else {
        find_aux(s, desired, v + 1)
    }
}

proof fn lemma_count_nonzero(s: Seq<u64>, start: int, i: int)
    requires
        0 <= start <= i <= start + count_nonzero(s, start),
    ensures
        count_nonzero(s, start) == (i - start) + count_nonzero(s, i),
        i < start + count_nonzero(s, start) ==> i < s.len() && s[i] != 0,
    decreases i - start,
{
    if i > start {
        lemma_count_nonzero(s, start, i - 1);
    }
}

proof fn lemma_count_aux(s: Seq<u64>, start: int, k: int)
    requires
        0 <= start,
        0 <= k <= count_aux(s, start),
    ensures
        count_aux(s, start) == k + count_aux(s, start + 2 * k),
        k < count_aux(s, start) ==> start + 2 * k < s.len() && word_type(s[start + 2 * k])
            != AT_NULL,
    decreases k,
{
    if k > 0 {
        lemma_count_aux(s, start, k - 1);
    }
}

/// Facts about the entries of a complete layout.
proof fn lemma_aux_entries(s: Seq<u64>, v: int)
    requires
        layout_complete(s),
        0 <= v <= aux_entries(s),
    ensures
        aux_begin(s) + 2 * v < s.len(),
        v < aux_entries(s) ==> aux_begin(s) + 2 * v + 1 < s.len(),
        v < aux_entries(s) ==> aux_type_at(s, v) != AT_NULL,
        v == aux_entries(s) ==> aux_type_at(s, v) == AT_NULL,
{
    lemma_count_aux(s, aux_begin(s), v);
    if v == aux_entries(s) {
        assert(count_aux(s, aux_begin(s) + 2 * v) == 0);
    }
}

/// Whether the words read so far from the initial stack pointer fall short of the whole
/// layout, so that another word must be read.
pub fn stack_needs_more(stack: &Vec<u64>) -> (more: bool)
    ensures
        more == !layout_complete(stack@),
{
    let ghost s = stack@;
    let len = stack.len();
    if len == 0 {
        return true;
    }
    let argc = stack[0];
    if argc >= len as u64 || (len as u64) - argc < 3 {
        proof {
            if layout_complete(s) {
                assert(env_begin(s) < s.len());
            }
        }
        return true;
    }
    let start: usize = (argc + 2) as usize;
    let mut i: usize = start;
    while i < len && stack[i] != 0
        invariant
            s == stack@,
            len == s.len(),
            start == env_begin(s),
            start <= i <= len,
            count_nonzero(s, start as int) == (i - start) + count_nonzero(s, i as int),
        decreases len - i,
    {
        i = i + 1;
    }
    if i >= len {
        return true;
    }
    assert(i == env_begin(s) + env_entries(s));
    let astart: usize = i + 1;
    let mut j: usize = astart;
    let ghost mut k: int = 0;
    while j < len
        invariant
            s == stack@,
            len == s.len(),
            astart == aux_begin(s),
            j == astart + 2 * k,
            0 <= k,
            aux_entries(s) == k + count_aux(s, j as int),
        decreases len - j,
    {
        if word_type_of(stack[j]) == AT_NULL {
            return false;
        }
        if len - j <= 2 {
            proof {
                assert(count_aux(s, j + 2) == 0);
            }
            return true;
        }
        j = j + 2;
        proof {
            k = k + 1;
        }
    }
    true
}

/// The type of the auxiliary entry whose first word is `w`.
pub fn word_type_of(w: u64) -> (t: i32)
    ensures
        t == word_type(w),
{
    (w as u32) as i32
}

/// The process's start-up state as the kernel laid it out from the initial stack pointer:
/// the words of the layout and the counts read from them.
pub struct AbiContext {
    rsp: u64,
    stack: Vec<u64>,
    arg_count: usize,
    environ_count: usize,
    aux_count: usize,
}

impl AbiContext {
    /// The words of the layout, from the initial stack pointer on.
    pub closed spec fn spec_stack(&self) -> Seq<u64> {
        self.stack@
    }

    /// The initial stack pointer.
    pub closed spec fn spec_rsp(&self) -> u64 {
        self.rsp
    }

    /// The counts agree with the words, and the words hold the whole layout.
    pub closed spec fn wf(&self) -> bool {
        &&& layout_complete(self.stack@)
        &&& self.stack@.len() <= usize::MAX
        &&& self.arg_count == self.stack@[0]
        &&& self.environ_count == env_entries(self.stack@)
        &&& self.aux_count == aux_entries(self.stack@)
    }

    /// Reads the layout: the argument count from the first word, then counts the
    /// environment pointers up to their null pointer and the auxiliary entries up to the
    /// `AT_NULL` entry.
    pub fn new(rsp: u64, stack: Vec<u64>) -> (context: AbiContext)
        requires
            layout_complete(stack@),
        ensures
            context.wf(),
            context.spec_rsp() == rsp,
            context.spec_stack() == stack@,
    {
        let ghost s = stack@;
        let len = stack.len();
        proof {
            assert(s[0] + 2 < s.len());
        }
        let arg_count = stack[0] as usize;
        let environ_start = arg_count + 2;
        let mut environ_count: usize = 0;
        proof {
            lemma_count_nonzero(s, env_begin(s), env_begin(s));
        }
        while stack[environ_start + environ_count] != 0
            invariant
                s == stack@,
                layout_complete(s),
                len == s.len(),
                environ_start == env_begin(s),
                environ_start + env_entries(s) < s.len(),
                environ_count <= env_entries(s),
                env_entries(s) == environ_count + count_nonzero(s, environ_start + environ_count),
            decreases env_entries(s) - environ_count,
        {
            environ_count += 1;
        }
        let aux_start = environ_start + environ_count + 1;
        let mut aux_count: usize = 0;
        proof {
            lemma_count_aux(s, aux_start as int, 0);
        }
        while word_type_of(stack[aux_start + 2 * aux_count]) != AT_NULL
            invariant
                s == stack@,
                layout_complete(s),
                len == s.len(),
                aux_start == aux_begin(s),
                aux_start + 2 * aux_entries(s) < s.len(),
                aux_count <= aux_entries(s),
                aux_entries(s) == aux_count + count_aux(s, aux_start + 2 * aux_count),
            decreases aux_entries(s) - aux_count,
        {
            aux_count += 1;
        }
        AbiContext { rsp, stack, arg_count, environ_count, aux_count }
    }

    /// The number of arguments.
    pub fn argc(&self) -> (n: usize)
        requires
            self.wf(),
        ensures
            n == self.spec_stack()[0],
    {
        self.arg_count
    }

    /// The number of environment variables.
    pub fn envc(&self) -> (n: usize)
        requires
            self.wf(),
        ensures
            n == env_entries(self.spec_stack()),
    {
        self.environ_count
    }

    /// The number of auxiliary entries before the `AT_NULL` entry.
    pub fn auxc(&self) -> (n: usize)
        requires
            self.wf(),
        ensures
            n == aux_entries(self.spec_stack()),
    {
        self.aux_count
    }

    /// The initial stack pointer.
    pub fn rsp(&self) -> (rsp: u64)
        ensures
            rsp == self.spec_rsp(),
    {
        self.rsp
    }

    /// Auxiliary entry `index`.
    pub fn auxv(&self, index: usize) -> (entry: AuxEntry)
        requires
            self.wf(),
            index < aux_entries(self.spec_stack()),
        ensures
            entry.a_type == aux_type_at(self.spec_stack(), index as int),
            entry.a_val == aux_word_at(self.spec_stack(), index as int) as i64,
    {
        proof {
            lemma_aux_entries(self.stack@, index as int);
        }
        let base = self.aux_start() + 2 * index;
        AuxEntry { a_type: word_type_of(self.stack[base]), a_val: self.stack[base + 1] as i64 }
    }

    /// Index of the first auxiliary entry.
    fn aux_start(&self) -> (start: usize)
        requires
            self.wf(),
        ensures
            start == aux_begin(self.spec_stack()),
    {
        self.arg_count + 2 + self.environ_count + 1
    }

    /// The index of the first auxiliary entry of type `desired`, looking no further than
    /// the `AT_NULL` entry.
    pub fn get_auxv_index(&self, desired: i32) -> (index: Option<usize>)
        requires
            self.wf(),
        ensures
            match index {
                Some(v) => find_aux(self.spec_stack(), desired, 0) == Some(v as int),
                None => find_aux(self.spec_stack(), desired, 0) is None,
            },
    {
        let ghost s = self.stack@;
        let start = self.aux_start();
        let mut v: usize = 0;
        loop
            invariant
                self.wf(),
                s == self.stack@,
                start == aux_begin(s),
                v <= aux_entries(s),
                find_aux(s, desired, 0) == find_aux(s, desired, v as int),
            ensures
                find_aux(s, desired, 0) is None,
            decreases aux_entries(s) - v,
        {
            proof {
                lemma_aux_entries(s, v as int);
            }
            let a_type = word_type_of(self.stack[start + 2 * v]);
            if a_type == desired {
                return Some(v);
            } else if a_type == AT_NULL {
                break;
            }
            v += 1;
        }
        None
    }

    /// The program headers of the executable: their address, the size of one header and
    /// their number, from the `AT_PHDR`, `AT_PHENT` and `AT_PHNUM` entries.
    pub fn get_phdr(&self) -> (phdr: Option<(u64, u64, u64)>)
        requires
            self.wf(),
        ensures
            match (
                find_aux(self.spec_stack(), AT_PHDR, 0),
                find_aux(self.spec_stack(), AT_PHENT, 0),
                find_aux(self.spec_stack(), AT_PHNUM, 0),
            ) {
                (Some(a), Some(b), Some(c)) => phdr == Some(
                    (
                        aux_word_at(self.spec_stack(), a),
                        aux_word_at(self.spec_stack(), b),
                        aux_word_at(self.spec_stack(), c),
                    ),
                ),
                _ => phdr is None,
            },
    {
        let z = self.get_auxv_index(AT_PHDR)?;
        let phent_index = self.get_auxv_index(AT_PHENT)?;
        let phnum_index = self.get_auxv_index(AT_PHNUM)?;
        proof {
            lemma_find_aux_nonnull(self.stack@, AT_PHDR, z as int);
            lemma_find_aux_nonnull(self.stack@, AT_PHENT, phent_index as int);
            lemma_find_aux_nonnull(self.stack@, AT_PHNUM, phnum_index as int);
        }
        let phdr = self.auxv(z).a_val as u64;
        let phent = self.auxv(phent_index).a_val;
        let phnum = self.auxv(phnum_index).a_val;
        proof {
            lemma_word_round_trip(aux_word_at(self.stack@, z as int));
            lemma_word_round_trip(aux_word_at(self.stack@, phent_index as int));
            lemma_word_round_trip(aux_word_at(self.stack@, phnum_index as int));
        }
        Some((phdr, phent as u64, phnum as u64))
    }

    /// Whether this program runs as the interpreter of another one: the `AT_ENTRY` entry
    /// names an entry point other than `start_address`, the address of this program's own
    /// start routine.
    pub fn is_interpreter(&self, start_address: u64) -> (interp: bool)
        requires
            self.wf(),
        ensures
            interp == (match find_aux(self.spec_stack(), AT_ENTRY, 0) {
                Some(v) => aux_word_at(self.spec_stack(), v) != start_address,
                None => false,
            }),
    {
        if let Some(index) = self.get_auxv_index(AT_ENTRY) {
            proof {
                lemma_find_aux_nonnull(self.stack@, AT_ENTRY, index as int);
                lemma_word_round_trip(aux_word_at(self.stack@, index as int));
            }
            let entry_record = self.auxv(index).a_val as u64;
            return entry_record != start_address;
        }
        false
    }

    /// The entry point recorded in the `AT_ENTRY` entry, where control goes once this
    /// program has done its part.
    pub fn entry(&self) -> (address: i64)
        requires
            self.wf(),
            find_aux(self.spec_stack(), AT_ENTRY, 0) is Some,
        ensures
            address == aux_word_at(
                self.spec_stack(),
                find_aux(self.spec_stack(), AT_ENTRY, 0)->0,
            ) as i64,
    {
        let index = self.get_auxv_index(AT_ENTRY);
        match index {
            Some(i) => {
                proof {
                    lemma_find_aux_nonnull(self.stack@, AT_ENTRY, i as int);
                }
                self.auxv(i).a_val
            },
            None => {
                proof {
                    assert(false);
                }
                0
            },
        }
    }

    /// The pointer to argument `index`.
    pub fn argv_pointer(&self, index: usize) -> (p: u64)
        requires
            self.wf(),
            index < self.spec_stack()[0],
        ensures
            p == self.spec_stack()[1 + index],
    {
        self.stack[1 + index]
    }

    /// The pointer to environment variable `index`.
    pub fn env_pointer(&self, index: usize) -> (p: u64)
        requires
            self.wf(),
            index < env_entries(self.spec_stack()),
        ensures
            p == self.spec_stack()[env_begin(self.spec_stack()) + index],
    {
        proof {
            lemma_count_nonzero(self.stack@, env_begin(self.stack@), env_begin(self.stack@) + index);
        }
        self.stack[self.arg_count + 2 + index]
    }

    /// Argument `index` as bytes, given `text`, the memory that its pointer points at: the
    /// bytes before the terminating zero.
    pub fn argv_bytes<'a>(&self, index: usize, text: &'a [u8]) -> (bytes: &'a [u8])
        requires
            self.wf(),
            index < self.spec_stack()[0],
            bounded_string(text@, usize::MAX as int),
        ensures
            bytes@ == text@.take(c_string_len(text@, usize::MAX as int)),
    {
        void_as_bytes(text, usize::MAX)
    }

    /// Argument `index` as text, given the memory that its pointer points at.
    pub fn argv<'a>(&self, index: usize, text: &'a [u8]) -> (arg: Result<&'a str, Utf8Failure>)
        requires
            self.wf(),
            index < self.spec_stack()[0],
            bounded_string(text@, usize::MAX as int),
        ensures
            arg is Ok <==> valid_utf8(text@.take(c_string_len(text@, usize::MAX as int))),
            arg matches Ok(t) ==> t.spec_bytes() == text@.take(c_string_len(text@, usize::MAX as int)),
            arg matches Err(f) ==> f.valid_up_to == longest_valid_prefix(
                text@.take(c_string_len(text@, usize::MAX as int)),
            ),
    {
        utf8_text(self.argv_bytes(index, text))
    }

    /// Environment variable `index` as bytes, given `text`, the memory that its pointer
    /// points at: the bytes before the terminating zero.
    pub fn env_bytes<'a>(&self, index: usize, text: &'a [u8]) -> (bytes: &'a [u8])
        requires
            self.wf(),
            index < env_entries(self.spec_stack()),
            bounded_string(text@, usize::MAX as int),
        ensures
            bytes@ == text@.take(c_string_len(text@, usize::MAX as int)),
    {
        void_as_bytes(text, usize::MAX)
    }

    /// Environment variable `index` as text, given the memory that its pointer points at.
    pub fn env<'a>(&self, index: usize, text: &'a [u8]) -> (var: Result<&'a str, Utf8Failure>)
        requires
            self.wf(),
            index < env_entries(self.spec_stack()),
            bounded_string(text@, usize::MAX as int),
        ensures
            var is Ok <==> valid_utf8(text@.take(c_string_len(text@, usize::MAX as int))),
            var matches Ok(t) ==> t.spec_bytes() == text@.take(c_string_len(text@, usize::MAX as int)),
            var matches Err(f) ==> f.valid_up_to == longest_valid_prefix(
                text@.take(c_string_len(text@, usize::MAX as int)),
            ),
    {
        utf8_text(self.env_bytes(index, text))
    }
}

/// An entry found by `find_aux` for a type other than `AT_NULL` comes before the `AT_NULL`
/// entry, so its value word exists.
proof fn lemma_find_aux_nonnull(s: Seq<u64>, desired: i32, v: int)
    requires
        layout_complete(s),
        desired != AT_NULL,
        find_aux(s, desired, 0) == Some(v),
    ensures
        0 <= v < aux_entries(s),
        aux_type_at(s, v) == desired,
{
    lemma_find_aux_range(s, desired, 0);
    lemma_aux_entries(s, v);
}

proof fn lemma_find_aux_range(s: Seq<u64>, desired: i32, w: int)
    requires
        0 <= w,
    ensures
        find_aux(s, desired, w) matches Some(v) ==> w <= v <= aux_entries(s) && aux_type_at(s, v)
            == desired,
    decreases aux_entries(s) + 1 - w,
{
    if w <= aux_entries(s) && aux_type_at(s, w) != desired && aux_type_at(s, w) != AT_NULL {
        lemma_find_aux_range(s, desired, w + 1);
    }
}

proof fn lemma_word_round_trip(w: u64)
    ensures
        (w as i64) as u64 == w,
{
    assert((w as i64) as u64 == w) by (bit_vector);
}

proof fn lemma_count_nonzero_extend(s: Seq<u64>, t: Seq<u64>, i: int)
    requires
        0 <= i,
        i + count_nonzero(s, i) < s.len(),
    ensures
        count_nonzero(s + t, i) == count_nonzero(s, i),
    decreases s.len() - i,
{
    assert((s + t)[i] == s[i]);
    if s[i] != 0 {
        lemma_count_nonzero_extend(s, t, i + 1);
    }
}

proof fn lemma_count_aux_extend(s: Seq<u64>, t: Seq<u64>, i: int)
    requires
        0 <= i,
        i + 2 * count_aux(s, i) < s.len(),
    ensures
        count_aux(s + t, i) == count_aux(s, i),
    decreases s.len() + 2 - i,
{
    assert((s + t)[i] == s[i]);
    if word_type(s[i]) != AT_NULL {
        lemma_count_aux_extend(s, t, i + 2);
    }
}

/// Reading further words past a complete layout changes nothing that was read: the layout
/// stays complete, with the same counts and the same auxiliary entries. So the reader may
/// stop at the first word after which `stack_needs_more` says no.
pub proof fn lemma_layout_prefix_stable(s: Seq<u64>, t: Seq<u64>)
    requires
        layout_complete(s),
    ensures
        layout_complete(s + t),
        (s + t)[0] == s[0],
        env_entries(s + t) == env_entries(s),
        aux_begin(s + t) == aux_begin(s),
        aux_entries(s + t) == aux_entries(s),
        forall|v: int|
            0 <= v <= aux_entries(s) ==> #[trigger] aux_type_at(s + t, v) == aux_type_at(s, v),
        forall|v: int|
            0 <= v < aux_entries(s) ==> #[trigger] aux_word_at(s + t, v) == aux_word_at(s, v),
{
    assert((s + t)[0] == s[0]);
    lemma_count_nonzero_extend(s, t, env_begin(s));
    lemma_count_aux_extend(s, t, aux_begin(s));
    assert forall|v: int| 0 <= v <= aux_entries(s) implies #[trigger] aux_type_at(s + t, v)
        == aux_type_at(s, v) by {
        lemma_aux_entries(s, v);
    }
    assert forall|v: int| 0 <= v < aux_entries(s) implies #[trigger] aux_word_at(s + t, v)
        == aux_word_at(s, v) by {
        lemma_aux_entries(s, v);
    }
}

/// This program runs as an interpreter exactly when the entry point that `entry` hands
/// control to is not its own start routine.
pub proof fn lemma_interpreter_iff_foreign_entry(s: Seq<u64>, start_address: u64)
    requires
        layout_complete(s),
        find_aux(s, AT_ENTRY, 0) is Some,
    ensures
        (aux_word_at(s, find_aux(s, AT_ENTRY, 0)->0) != start_address) == ((aux_word_at(
            s,
            find_aux(s, AT_ENTRY, 0)->0,
        ) as i64) as u64 != start_address),
{
    lemma_word_round_trip(aux_word_at(s, find_aux(s, AT_ENTRY, 0)->0));
}

/// In a complete layout the counts are those of the words themselves: every environment
/// pointer up to the null pointer after the arguments' terminator is counted, and every
/// auxiliary entry before the first one of type `AT_NULL`, however many there are.
pub proof fn lemma_layout_counts(s: Seq<u64>)
    requires
        layout_complete(s),
    ensures
        forall|k: int| 0 <= k < env_entries(s) ==> #[trigger] s[s[0] + 2 + k] != 0,
        s[s[0] + 2 + env_entries(s)] == 0,
        aux_begin(s) == s[0] + 3 + env_entries(s),
        forall|v: int| 0 <= v < aux_entries(s) ==> #[trigger] word_type(s[aux_begin(s) + 2 * v]) != 0,
        word_type(s[aux_begin(s) + 2 * aux_entries(s)]) == 0,
{
    let start = s[0] + 2;
    lemma_count_nonzero(s, start, start + env_entries(s));
    assert forall|k: int| 0 <= k < env_entries(s) implies #[trigger] s[s[0] + 2 + k] != 0 by {
        lemma_count_nonzero(s, start, start + k);
    }
    assert forall|v: int| 0 <= v < aux_entries(s) implies #[trigger] word_type(
        s[aux_begin(s) + 2 * v],
    ) != 0 by {
        lemma_aux_entries(s, v);
    }
    lemma_aux_entries(s, aux_entries(s) as int);
}

proof fn lemma_find_aux_from(s: Seq<u64>, desired: i32, w: int, v: int)
    requires
        layout_complete(s),
        0 <= w <= v < aux_entries(s),
        aux_type_at(s, v) == desired,
        forall|u: int| w <= u < v ==> aux_type_at(s, u) != desired,
    ensures
        find_aux(s, desired, w) == Some(v),
    decreases v - w,
{
    if w < v {
        lemma_aux_entries(s, w);
        lemma_find_aux_from(s, desired, w + 1, v);
    }
}

proof fn lemma_find_aux_none_from(s: Seq<u64>, desired: i32, w: int)
    requires
        layout_complete(s),
        0 <= w,
        forall|u: int| w <= u <= aux_entries(s) ==> aux_type_at(s, u) != desired,
    ensures
        find_aux(s, desired, w) is None,
    decreases aux_entries(s) + 1 - w,
{
    if w <= aux_entries(s) {
        lemma_aux_entries(s, w);
        if w < aux_entries(s) {
            lemma_find_aux_none_from(s, desired, w + 1);
        }
    }
}

/// The lookup of an auxiliary entry is decided by the types of the entries up to the
/// `AT_NULL` entry alone, for any number of entries: the first entry of the desired type is
/// found wherever it stands, and nothing is found when no entry before `AT_NULL` has it.
pub proof fn lemma_find_aux_first_match(s: Seq<u64>, desired: i32)
    requires
        layout_complete(s),
        desired != AT_NULL,
    ensures
        forall|v: int|
            0 <= v < aux_entries(s) && aux_type_at(s, v) == desired && (forall|u: int|
                0 <= u < v ==> aux_type_at(s, u) != desired) ==> find_aux(s, desired, 0) == Some(v),
        (forall|u: int| 0 <= u < aux_entries(s) ==> aux_type_at(s, u) != desired) ==> find_aux(
            s,
            desired,
            0,
        ) is None,
{
    assert forall|v: int|
        0 <= v < aux_entries(s) && aux_type_at(s, v) == desired && (forall|u: int|
            0 <= u < v ==> aux_type_at(s, u) != desired) implies find_aux(s, desired, 0) == Some(
        v,
    ) by {
        lemma_find_aux_from(s, desired, 0, v);
    }
    if forall|u: int| 0 <= u < aux_entries(s) ==> aux_type_at(s, u) != desired {
        lemma_aux_entries(s, aux_entries(s) as int);
        lemma_find_aux_none_from(s, desired, 0);
    }
}

/// Only the three string-valued types are printed as text, and every type outside the ten
/// named ones is printed as its number and value, under the label "-".
pub proof fn lemma_aux_rendering_by_type(t: i32)
    ensures
        aux_rendering(t) == AuxRendering::Text <==> (t == 31 || t == 15 || t == 24),
        aux_rendering(t) == AuxRendering::Pointer <==> (t == 3 || t == 9),
        aux_rendering(t) == AuxRendering::Hex <==> (t == 2 || t == 4 || t == 5 || t == 11),
        aux_rendering(t) == AuxRendering::Zero <==> t == 0,
        !(t == 0 || t == 2 || t == 3 || t == 4 || t == 5 || t == 9 || t == 11 || t == 15 || t == 24
            || t == 31) ==> aux_rendering(t) == AuxRendering::Other && aux_label(t) == "-"@,
{
}

/// The names under which the ten named entry types are printed.
pub proof fn lemma_aux_label_by_type()
    ensures
        aux_label(0) == "NULL"@,
        aux_label(2) == "AT_EXECFD"@,
        aux_label(3) == "AT_PHDR"@,
        aux_label(4) == "AT_PHENT"@,
        aux_label(5) == "AT_PHNUM"@,
        aux_label(9) == "AT_ENTRY"@,
        aux_label(11) == "AT_UID"@,
        aux_label(15) == "AT_PLATFORM"@,
        aux_label(24) == "AT_BASE_PLATFORM"@,
        aux_label(31) == "AT_EXECFN"@,
{
}

} // verus!

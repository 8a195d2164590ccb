use vstd::prelude::*;
use crate::syscall::{O_APPEND, O_CREAT, O_RDONLY, O_RDWR, O_TRUNC, O_WRONLY};

verus! {

/// Whether `c` occurs among the characters of `s`.
pub fn contains_char(s: &str, c: char) -> (found: bool)
    ensures
        found == s@.contains(c),
{
    let mut found = false;
    for ch in iter: s.chars()
        invariant
            iter.seq() == s@,
            found == s@.take(iter.index() as int).contains(c),
    {
        let ghost i = iter.index() as int;
        let ghost before = s@.take(i);
        let ghost after = s@.take(i + 1);
        proof {
            assert(ch == s@[i]);
            assert(after =~= before.push(ch));
            if before.contains(c) {
                let w = choose|w: int| 0 <= w < before.len() && before[w] == c;
                assert(after[w] == c);
            }
            if after.contains(c) && ch != c {
                let w = choose|w: int| 0 <= w < after.len() && after[w] == c;
                assert(w < i);
                assert(before[w] == c);
            }
            if ch == c {
                assert(after[i] == c);
            }
        }
        if ch == c {
            found = true;
        }
    }
    proof {
        assert(s@.take(s@.len() as int) =~= s@);
    }
    found
}

/// The flags that `File::open` passes to the `open` call for a mode made of the letters
/// 'r', 'w' and 'a': reading and writing together, or writing, or reading alone choose the
/// access mode; 'a' appends; a mode without 'a' and without 'r' truncates the file and
/// creates it when it is missing.
pub open spec fn mode_flags(mode: Seq<char>) -> i32 {
    let r = mode.contains('r');
    let w = mode.contains('w');
    let access = if w && r {
        O_RDWR
    } else if w {
        O_WRONLY
    } else {
        O_RDONLY
    };
    let extra = if mode.contains('a') {
        O_APPEND
    } else if !r {
        O_TRUNC | O_CREAT
    } else {
        0
    };
    access | extra
}

/// The flags in numbers: access 2 (read and write) when the mode has both 'r' and 'w', 1
/// (write) for 'w' alone, 0 otherwise; plus 0o2000 (append) for 'a', or else 0o1100
/// (truncate and create) when the mode has no 'r'.
pub proof fn lemma_mode_flags_values(mode: Seq<char>)
    ensures
        mode_flags(mode) == (if mode.contains('w') && mode.contains('r') {
            2i32
        } else if mode.contains('w') {
            1i32
        } else {
            0i32
        }) + (if mode.contains('a') {
            0o2000i32
        } else if !mode.contains('r') {
            0o1100i32
        } else {
            0i32
        }),
{
    assert(2i32 | 0o2000i32 == 2 + 0o2000) by (bit_vector);
    assert(1i32 | 0o2000i32 == 1 + 0o2000) by (bit_vector);
    assert(0i32 | 0o2000i32 == 0o2000) by (bit_vector);
    assert(0o1000i32 | 0o100i32 == 0o1100) by (bit_vector);
    assert(1i32 | 0o1100i32 == 1 + 0o1100) by (bit_vector);
    assert(0i32 | 0o1100i32 == 0o1100) by (bit_vector);
    assert(2i32 | 0i32 == 2) by (bit_vector);
    assert(0i32 | 0i32 == 0) by (bit_vector);
    assert(2i32 | 0o1100i32 == 2 + 0o1100) by (bit_vector);
    assert(1i32 | 0i32 == 1) by (bit_vector);
}

/// The message of every error that `File` reports when the system refuses a file.
pub open spec fn refused_msg() -> Seq<char> {
    "Something went wrong... :/ "@
}

proof fn lemma_or_facts()
    ensures
        forall|x: i32| #[trigger] (0i32 | x) == x,
        forall|x: i32| #[trigger] (x | 0i32) == x,
        forall|x: i32, y: i32, z: i32| #[trigger] ((x | y) | z) == x | (y | z),
{
    assert forall|x: i32| #[trigger] (0i32 | x) == x by {
        assert(0i32 | x == x) by (bit_vector);
    }
    assert forall|x: i32| #[trigger] (x | 0i32) == x by {
        assert(x | 0i32 == x) by (bit_vector);
    }
    assert forall|x: i32, y: i32, z: i32| #[trigger] ((x | y) | z) == x | (y | z) by {
        assert((x | y) | z == x | (y | z)) by (bit_vector);
    }
}

/// The smallest word that a raw system call returns for a failure: the calls return
/// `-errno`, with `errno` from 1 to 4095, read as an unsigned word.
pub const ERROR_RETURN_MIN: u64 = 0xffff_ffff_ffff_f001;

/// The word `r` that a raw system call returned stands for a failure (`-errno`).
pub open spec fn is_error_return(r: u64) -> bool {
    r >= ERROR_RETURN_MIN
}

/// An open file, by its descriptor.
pub struct File {
    fd: u64,
}

impl File {
    /// The descriptor of the file.
    pub closed spec fn spec_fd(&self) -> u64 {
        self.fd
    }

    /// The descriptor of the file.
    pub fn fd(&self) -> (fd: u64)
        ensures
            fd == self.spec_fd(),
    {
        self.fd
    }

    /// The flags of the `open` call for `mode` ('r', 'w' or 'a').
    pub fn open_flags(mode: &str) -> (flags: i32)
        ensures
            flags == mode_flags(mode@),
    {
        let r = contains_char(mode, 'r');
        let w = contains_char(mode, 'w');
        let a = contains_char(mode, 'a');
        let mut mode_mask: i32 = 0;
        if w && r {
            mode_mask |= O_RDWR;
        } else if w {
            mode_mask |= O_WRONLY;
        } else if r {
            mode_mask |= O_RDONLY;
        }
        proof {
            lemma_or_facts();
        }
        if a {
            mode_mask |= O_APPEND;
        } else if !r {
            mode_mask |= O_TRUNC;
            mode_mask |= O_CREAT;
        }
        mode_mask
    }

    /// The file that an `open` (or `create`) call returned the descriptor `fd` for; only a
    /// result of 0 counts as a refusal, any other word is kept as the descriptor.
    pub fn from_fd(fd: u64) -> (file: Result<File, &'static str>)
        ensures
            fd != 0 ==> (file matches Ok(f) && f.spec_fd() == fd),
            fd == 0 ==> (file matches Err(e) && e@ == refused_msg()),
    {
        if fd == 0 {
            return Err("Something went wrong... :/ ");
        }
        Ok(File { fd })
    }

    /// The outcome of writing the non-empty `buffer` to the file, given the count that the
    /// `write` call returned: success only when all of it was written.
    pub fn write(&self, buffer: &[u8], written: u64) -> (outcome: Result<(), &'static str>)
        requires
            buffer@.len() > 0,
        ensures
            written == buffer@.len() ==> outcome is Ok,
            written != buffer@.len() ==> (outcome matches Err(e) && e@ == "Didn't write?"@),
    {
        if written == buffer.len() as u64 {
            return Ok(());
        }
        Err("Didn't write?")
    }

    /// The outcome of reading into the non-empty `buffer`, given what the `read` call
    /// returned: the amount read, unless the call returned a failure word (`-errno`).
    pub fn read_into(&self, buffer: &[u8], result: u64) -> (outcome: Result<usize, &'static str>)
        requires
            buffer@.len() > 0,
        ensures
            !is_error_return(result) ==> outcome == Ok::<usize, &'static str>(result as usize),
            is_error_return(result) ==> (outcome matches Err(e) && e@ == "Something went wrong"@),
    {
        if result < ERROR_RETURN_MIN {
            Ok(result as usize)
        } else {
            Err("Something went wrong")
        }
    }

    /// The file's size, given what `fstat_filesize` found for its descriptor.
    pub fn size(&self, filesize: Option<i64>) -> (size: Result<usize, &'static str>)
        ensures
            filesize matches Some(v) ==> size == Ok::<usize, &'static str>(v as usize),
            filesize is None ==> (size matches Err(e) && e@
                == "Something went wrong getting the size."@),
    {
        if let Some(v) = filesize {
            return Ok(v as usize);
        }
        Err("Something went wrong getting the size.")
    }
}

/// The outcome of reading a whole file into `chunk`, a buffer of the file's `size` bytes,
/// given the outcome of `File::read_into`: the chunk when exactly `size` bytes were read.
pub fn read_into_chunk(size: usize, chunk: Vec<u8>, read: Result<usize, &'static str>) -> (outcome:
    Result<Vec<u8>, &'static str>)
    requires
        chunk@.len() == size,
    ensures
        read matches Err(e) ==> outcome == Err::<Vec<u8>, &'static str>(e),
        read == Ok::<usize, &'static str>(size) ==> outcome == Ok::<Vec<u8>, &'static str>(chunk),
        read matches Ok(n) && n != size ==> (outcome matches Err(e) && e@
            == "Didn't read expected size, did the file change?"@),
        outcome matches Ok(c) ==> c@.len() == size,
{
    let res = match read {
        Ok(n) => n,
        Err(e) => {
            return Err(e);
        },
    };
    if res == size {
        return Ok(chunk);
    }
    Err("Didn't read expected size, did the file change?")
}

/// Reading a whole file into a fresh buffer, one system call at a time. The caller
/// performs the call that each state asks for and hands its result to the next step:
/// `Opening` asks for `open` of the path with `File::open_flags("r")`, `Sizing` for `fstat`
/// of the file, `Reading` for a `read` of the file into a zero-filled buffer of the size.
pub enum ChunkRead {
    Opening,
    Sizing(File),
    Reading(File, usize),
    Done(Result<Vec<u8>, &'static str>),
}

impl ChunkRead {
    /// The first state: the file is to be opened.
    pub fn start() -> (state: ChunkRead)
        ensures
            state is Opening,
    {
        ChunkRead::Opening
    }

    /// The step after `open` returned `fd`: a result of 0 ends the read with its error,
    /// otherwise the file's size is asked for.
    pub fn opened(self, fd: u64) -> (state: ChunkRead)
        requires
            self is Opening,
        ensures
            fd == 0 ==> (state matches ChunkRead::Done(Err(e)) && e@ == refused_msg()),
            fd != 0 ==> (state matches ChunkRead::Sizing(f) && f.spec_fd() == fd),
    {
        match File::from_fd(fd) {
            Ok(f) => ChunkRead::Sizing(f),
            Err(e) => ChunkRead::Done(Err(e)),
        }
    }

    /// The step after `fstat_filesize` found `filesize` for the file: no size ends the read
    /// with its error, otherwise the file is to be read into a buffer of that size.
    pub fn sized(self, filesize: Option<i64>) -> (state: ChunkRead)
        requires
            self is Sizing,
        ensures
            filesize is None ==> (state matches ChunkRead::Done(Err(e)) && e@
                == "Something went wrong getting the size."@),
            filesize matches Some(v) ==> (state matches ChunkRead::Reading(f, n) && f.spec_fd()
                == self->Sizing_0.spec_fd() && n == v as usize),
    {
        match self {
            ChunkRead::Sizing(f) => match f.size(filesize) {
                Ok(n) => ChunkRead::Reading(f, n),
                Err(e) => ChunkRead::Done(Err(e)),
            },
            _ => {
                proof {
                    assert(false);
                }
                ChunkRead::Opening
            },
        }
    }

    /// The step after `read` into `chunk`, a buffer of the file's size, returned `result`:
    /// the chunk when exactly that many bytes were read, an error otherwise.
    pub fn read(self, chunk: Vec<u8>, result: u64) -> (state: ChunkRead)
        requires
            self matches ChunkRead::Reading(f, n) && chunk@.len() == n && n > 0,
        ensures
            is_error_return(result) ==> (state matches ChunkRead::Done(Err(e)) && e@
                == "Something went wrong"@),
            !is_error_return(result) && result as usize == chunk@.len() ==> state == ChunkRead::Done(
                Ok::<Vec<u8>, &'static str>(chunk),
            ),
            !is_error_return(result) && result as usize != chunk@.len() ==> (state matches ChunkRead::Done(
                Err(e),
            ) && e@ == "Didn't read expected size, did the file change?"@),
    {
        match self {
            ChunkRead::Reading(f, size) => {
                let res = f.read_into(chunk.as_slice(), result);
                ChunkRead::Done(read_into_chunk(size, chunk, res))
            },
            _ => {
                proof {
                    assert(false);
                }
                ChunkRead::Opening
            },
        }
    }
}

} // verus!

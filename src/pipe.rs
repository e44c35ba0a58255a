//! Decisions of the pipe-optimised output path: recognising a pipe from its
//! file mode, reading the system's maximum pipe capacity, choosing the
//! capacity to ask for, and following a zero-copy transfer through partial
//! progress, interruptions and a closed reader.
use vstd::prelude::*;

verus! {

/// The bits of a file mode that give the file's type (`S_IFMT` on Linux).
pub const FILE_TYPE_MASK: u32 = 0o170000;

/// The file type of a pipe (`S_IFIFO` on Linux).
pub const FIFO_TYPE: u32 = 0o010000;

/// The error number of an interrupted system call (`EINTR` on Linux).
pub const EINTR: i32 = 4;

/// The error number of a write to a pipe whose reader has gone (`EPIPE` on
/// Linux).
pub const EPIPE: i32 = 32;

/// The largest pipe capacity that can be asked for.
pub const MAX_PIPE_REQUEST: i32 = 0x7fff_ffff;

/// A file whose mode is `mode` is a pipe.
pub open spec fn is_fifo_mode(mode: u32) -> bool {
    mode & FILE_TYPE_MASK == FIFO_TYPE
}

/// Tells from a file mode whether the file is a pipe.
pub fn mode_is_pipe(mode: u32) -> (r: bool)
    ensures
        r == is_fifo_mode(mode),
{
    mode & FILE_TYPE_MASK == FIFO_TYPE
}

/// Tells from the outcome of a status query (the file mode, or an error
/// number) whether the file is a pipe; a failed query means it is not.
pub fn stat_is_pipe(stat: Result<u32, i32>) -> (r: bool)
    ensures
        r == (stat.is_ok() && is_fifo_mode(stat.unwrap())),
{
    match stat {
        Ok(mode) => mode_is_pipe(mode),
        Err(_) => false,
    }
}

pub open spec fn is_space(b: u8) -> bool {
    b == 0x20 || (0x09 <= b && b <= 0x0d)
}

/// The number of bytes of the white-space character that ends the UTF-8 text
/// `s`, or 0 where `s` does not end in white space. White space is what
/// Unicode calls so: tab to carriage return, space, U+0085, U+00A0, U+1680,
/// U+2000 to U+200A, U+2028, U+2029, U+202F, U+205F and U+3000.
pub open spec fn trailing_space_len(s: Seq<u8>) -> nat {
    let n = s.len();
    if n >= 1 && is_space(s[n - 1]) {
        1
    } else if n >= 2 && s[n - 2] == 0xc2 && (s[n - 1] == 0x85 || s[n - 1] == 0xa0) {
        2
    } else if n >= 3 && ((s[n - 3] == 0xe1 && s[n - 2] == 0x9a && s[n - 1] == 0x80) || (s[n
        - 3] == 0xe2 && s[n - 2] == 0x80 && ((0x80 <= s[n - 1] && s[n - 1] <= 0x8a) || s[n - 1]
        == 0xa8 || s[n - 1] == 0xa9 || s[n - 1] == 0xaf)) || (s[n - 3] == 0xe2 && s[n - 2]
        == 0x81 && s[n - 1] == 0x9f) || (s[n - 3] == 0xe3 && s[n - 2] == 0x80 && s[n - 1]
        == 0x80)) {
        3
    } else {
        0
    }
}

pub open spec fn is_digit(b: u8) -> bool {
    0x30 <= b && b <= 0x39
}

/// `s` with its trailing white space removed.
pub open spec fn trim_end(s: Seq<u8>) -> Seq<u8>
    decreases s.len(),
{
    if trailing_space_len(s) > 0 {
        trim_end(s.take(s.len() - trailing_space_len(s)))
    } else {
        s
    }
}

/// The number written in decimal by the digits `s`.
pub open spec fn decimal_value(s: Seq<u8>) -> nat
    decreases s.len(),
{
    if s.len() == 0 {
        0
    } else {
        decimal_value(s.drop_last()) * 10 + (s.last() - 0x30) as nat
    }
}

/// The digits of the trimmed text, after an optional `+`.
pub open spec fn number_digits(text: Seq<u8>) -> Seq<u8> {
    let t = trim_end(text);
    if t.len() > 0 && t[0] == 0x2b {
        t.drop_first()
    } else {
        t
    }
}

/// The value held by the text of the maximum pipe size setting: a decimal
/// number with an optional `+`, followed by white space, that fits in `usize`.
pub open spec fn pipe_max_size_of(text: Seq<u8>) -> Option<nat> {
    let d = number_digits(text);
    if d.len() > 0 && (forall|i: int| 0 <= i < d.len() ==> is_digit(#[trigger] d[i]))
        && decimal_value(d) <= usize::MAX {
        Some(decimal_value(d))
    } else {
        None
    }
}

proof fn lemma_decimal_grows(s: Seq<u8>, k: int)
    requires
        0 <= k <= s.len(),
        forall|i: int| 0 <= i < s.len() ==> is_digit(#[trigger] s[i]),
    ensures
        decimal_value(s.take(k)) <= decimal_value(s),
    decreases s.len() - k,
{
    if k < s.len() {
        lemma_decimal_grows(s, k + 1);
        assert(s.take(k + 1).drop_last() =~= s.take(k));
    } else {
        assert(s.take(k) =~= s);
    }
}

/// The number of bytes of the white-space character that ends `text[..end]`.
fn trailing_space(text: &[u8], end: usize) -> (r: usize)
    requires
        end <= text@.len(),
    ensures
        r == trailing_space_len(text@.take(end as int)),
{
    let ghost s = text@.take(end as int);
    if end >= 1 && (text[end - 1] == 0x20 || (0x09 <= text[end - 1] && text[end - 1] <= 0x0d)) {
        return 1;
    }
    if end >= 2 && text[end - 2] == 0xc2 && (text[end - 1] == 0x85 || text[end - 1] == 0xa0) {
        return 2;
    }
    if end >= 3 {
        let a = text[end - 3];
        let b = text[end - 2];
        let c = text[end - 1];
        if (a == 0xe1 && b == 0x9a && c == 0x80) || (a == 0xe2 && b == 0x80 && ((0x80 <= c && c
            <= 0x8a) || c == 0xa8 || c == 0xa9 || c == 0xaf)) || (a == 0xe2 && b == 0x81 && c
            == 0x9f) || (a == 0xe3 && b == 0x80 && c == 0x80) {
            return 3;
        }
    }
    0
}

/// Reads the maximum pipe capacity from the text of the system setting.
pub fn parse_pipe_max_size(text: &[u8]) -> (r: Option<usize>)
    ensures
        r.is_some() == pipe_max_size_of(text@).is_some(),
        r.is_some() ==> r.unwrap() == pipe_max_size_of(text@).unwrap(),
{
    let mut end: usize = text.len();
    assert(text@.take(end as int) =~= text@);
    let mut k: usize = trailing_space(text, end);
    while k > 0
        invariant
            end <= text@.len(),
            k <= end,
            k == trailing_space_len(text@.take(end as int)),
            trim_end(text@) == trim_end(text@.take(end as int)),
        decreases end,
    {
        assert(text@.take(end as int).take(end - k) =~= text@.take(end - k));
        end = end - k;
        k = trailing_space(text, end);
    }
    assert(trim_end(text@) == text@.take(end as int));
    let mut start: usize = 0;
    if end > 0 && text[0] == 0x2b {
        start = 1;
    }
    let ghost d = number_digits(text@);
    assert(d =~= text@.subrange(start as int, end as int));
    if start == end {
        return None;
    }
    let mut value: usize = 0;
    let mut i: usize = start;
    while i < end
        invariant
            start <= i <= end <= text@.len(),
            d == text@.subrange(start as int, end as int),
            d == number_digits(text@),
            forall|j: int| 0 <= j < i - start ==> is_digit(#[trigger] d[j]),
            value == decimal_value(d.take(i - start)),
        decreases end - i,
    {
        let b = text[i];
        assert(d[i - start] == b);
        if b < 0x30 || b > 0x39 {
            assert(!is_digit(d[i - start]));
            return None;
        }
        let ghost prefix = d.take(i - start + 1);
        assert(prefix.drop_last() =~= d.take(i - start));
        assert(prefix.last() == b);
        assert(decimal_value(prefix) == value * 10 + (b - 0x30) as nat);
        proof {
            if forall|j: int| 0 <= j < d.len() ==> is_digit(#[trigger] d[j]) {
                lemma_decimal_grows(d, i - start + 1);
            }
        }
        match value.checked_mul(10) {
            None => {
                return None;
            },
            Some(tens) => match tens.checked_add((b - 0x30) as usize) {
                None => {
                    return None;
                },
                Some(v) => {
                    value = v;
                },
            },
        }
        i = i + 1;
    }
    assert(d.take(d.len() as int) =~= d);
    Some(value)
}

/// The capacity that a pipe holding `current` bytes is raised to, given the
/// system maximum `max`: that maximum, as far as it can be asked for, and
/// only where it is more than the pipe has.
pub open spec fn raised_capacity(current: i32, max: usize) -> Option<i32> {
    let target = if max > MAX_PIPE_REQUEST { MAX_PIPE_REQUEST } else { max as i32 };
    if current < target {
        Some(target)
    } else {
        None
    }
}

/// Chooses the capacity to ask for, if any, for a pipe whose capacity is
/// `current` on a system whose maximum is `max`.
pub fn pipe_size_target(current: i32, max: usize) -> (r: Option<i32>)
    ensures
        r == raised_capacity(current, max),
{
    let target: i32 = if max > MAX_PIPE_REQUEST as usize {
        MAX_PIPE_REQUEST
    } else {
        max as i32
    };
    if current < target {
        Some(target)
    } else {
        None
    }
}

/// Relies on `nix::sys::stat::fstat`: the status of the open file `fd`, of
/// which the mode is kept; a failure gives its error number. The outcome
/// depends on the system alone, so nothing is claimed of it.
#[verifier::external_body]
fn file_mode(fd: i32) -> (r: Result<u32, i32>) {
    nix::sys::stat::fstat(fd).map(|st| st.st_mode).map_err(|e| e as i32)
}

/// Relies on `nix::fcntl::fcntl` with `F_GETPIPE_SZ` (for `None`) or
/// `F_SETPIPE_SZ(size)` (for `Some(size)`): the pipe's capacity in bytes, or
/// an error number. The outcome depends on the system alone.
#[verifier::external_body]
fn pipe_capacity_call(fd: i32, size: Option<i32>) -> (r: Result<i32, i32>) {
    let arg = match size {
        None => nix::fcntl::FcntlArg::F_GETPIPE_SZ,
        Some(n) => nix::fcntl::FcntlArg::F_SETPIPE_SZ(n),
    };
    nix::fcntl::fcntl(fd, arg).map_err(|e| e as i32)
}

/// Relies on `nix::fcntl::vmsplice` with `SPLICE_F_GIFT`: gives the pages of
/// `buf` to the pipe `fd`, and returns how many bytes it took, or an error
/// number. The outcome depends on the system alone.
#[verifier::external_body]
fn vmsplice_gift(fd: i32, buf: &[u8]) -> (r: Result<usize, i32>) {
    let iov = [std::io::IoSlice::new(buf)];
    nix::fcntl::vmsplice(fd, &iov, nix::fcntl::SpliceFFlags::SPLICE_F_GIFT).map_err(|e| e as i32)
}

/// Tells whether the open file `fd` is a pipe, together with the outcome of
/// the status query it rests on; where the status cannot be read, the file is
/// taken not to be a pipe.
pub fn is_pipe_fd(fd: i32) -> (r: (bool, Result<u32, i32>))
    ensures
        r.0 == (r.1.is_ok() && is_fifo_mode(r.1.unwrap())),
{
    let stat = file_mode(fd);
    (stat_is_pipe(stat), stat)
}

/// Raises the capacity of the pipe `fd` to the system maximum `max_size`
/// where it is below it. On success returns the capacity read and the
/// capacity asked for, if any; fails with the error number of a failed query
/// (then no raise is asked for) or of a failed raise.
pub fn set_pipe_max_size_fd(fd: i32, max_size: usize) -> (r: Result<(i32, Option<i32>), i32>)
    ensures
        r is Ok ==> r.unwrap().1 == raised_capacity(r.unwrap().0, max_size),
{
    let current = pipe_capacity_call(fd, None)?;
    let target = pipe_size_target(current, max_size);
    match target {
        Some(size) => {
            pipe_capacity_call(fd, Some(size))?;
        },
        None => {},
    }
    Ok((current, target))
}

/// Why a write to the output did not complete.
#[derive(Debug, Clone, Copy, PartialEq, Eq, Structural)]
pub enum WriteError {
    /// The reader of the pipe has gone: the stream ends normally.
    BrokenPipe,
    /// The output took no bytes although some were offered.
    WriteZero,
    /// Any other failure, with its error number.
    Os(i32),
}

/// What the writer does after one transfer attempt.
#[derive(Debug, Clone, Copy, PartialEq, Eq, Structural)]
pub enum TransferStep {
    /// Every byte has been handed over.
    Finished,
    /// Bytes remain, or the attempt was interrupted: try again from `offset`.
    Again,
    /// The transfer failed.
    Failed(WriteError),
}

/// The error that an error number stands for, where the transfer gives up.
pub open spec fn write_error_of(code: i32) -> WriteError {
    if code == EPIPE {
        WriteError::BrokenPipe
    } else {
        WriteError::Os(code)
    }
}

/// The step after an attempt to transfer `remaining` bytes had outcome `res`.
/// An interrupted attempt is tried again, without counting as an error.
pub open spec fn step_of(remaining: nat, res: Result<usize, i32>) -> TransferStep {
    match res {
        Ok(n) => if n >= remaining {
            TransferStep::Finished
        } else if n == 0 {
            TransferStep::Failed(WriteError::WriteZero)
        } else {
            TransferStep::Again
        },
        Err(code) => if code == EINTR {
            TransferStep::Again
        } else {
            TransferStep::Failed(write_error_of(code))
        },
    }
}

/// How many bytes of `len` have been handed over after an attempt with
/// outcome `res`, when `done` had been before it.
pub open spec fn done_after(len: nat, done: nat, res: Result<usize, i32>) -> nat {
    match step_of((len - done) as nat, res) {
        TransferStep::Finished => len,
        TransferStep::Again => match res {
            Ok(n) => (done + n) as nat,
            Err(_) => done,
        },
        TransferStep::Failed(_) => done,
    }
}

/// A transfer of `len` bytes into a pipe, of which the first `done` have
/// been handed over.
pub struct Transfer {
    len: usize,
    done: usize,
}

impl Transfer {
    pub closed spec fn len(&self) -> nat {
        self.len as nat
    }

    pub closed spec fn done(&self) -> nat {
        self.done as nat
    }

    pub closed spec fn wf(&self) -> bool {
        self.done <= self.len
    }

    /// A transfer of `len` bytes, none handed over yet.
    pub fn new(len: usize) -> (r: Transfer)
        ensures
            r.wf(),
            r.len() == len,
            r.done() == 0,
    {
        Transfer { len, done: 0 }
    }

    /// Where the bytes still to hand over start.
    pub fn offset(&self) -> (r: usize)
        ensures
            r == self.done(),
    {
        self.done
    }

    /// Every byte has been handed over; true at once for an empty buffer.
    pub fn is_finished(&self) -> (r: bool)
        requires
            self.wf(),
        ensures
            r == (self.done() == self.len()),
    {
        self.done == self.len
    }

    /// Takes the outcome of one transfer attempt of the remaining bytes: the
    /// number of bytes taken, or an error number.
    pub fn on_result(&mut self, res: Result<usize, i32>) -> (r: TransferStep)
        requires
            old(self).wf(),
        ensures
            final(self).wf(),
            final(self).len() == old(self).len(),
            r == step_of((old(self).len() - old(self).done()) as nat, res),
            final(self).done() == done_after(old(self).len(), old(self).done(), res),
    {
        match res {
            Ok(n) => {
                if n >= self.len - self.done {
                    self.done = self.len;
                    TransferStep::Finished
                } else if n == 0 {
                    TransferStep::Failed(WriteError::WriteZero)
                } else {
                    self.done = self.done + n;
                    TransferStep::Again
                }
            },
            Err(code) => {
                if code == EINTR {
                    TransferStep::Again
                } else if code == EPIPE {
                    TransferStep::Failed(WriteError::BrokenPipe)
                } else {
                    TransferStep::Failed(WriteError::Os(code))
                }
            },
        }
    }

    /// The bytes of `data` still to hand over.
    pub fn remainder<'a>(&self, data: &'a [u8]) -> (r: &'a [u8])
        requires
            self.wf(),
            data@.len() == self.len(),
        ensures
            r@ == data@.subrange(self.done() as int, self.len() as int),
    {
        &data[self.done..data.len()]
    }

    /// Makes one zero-copy attempt to hand the remaining bytes of `data` to
    /// the pipe `fd`, and takes its outcome as `on_result` does. With nothing
    /// left to hand over it makes no attempt and reports `Finished`.
    pub fn attempt(&mut self, fd: i32, data: &[u8]) -> (r: TransferStep)
        requires
            old(self).wf(),
            data@.len() == old(self).len(),
        ensures
            final(self).wf(),
            final(self).len() == old(self).len(),
            old(self).done() == old(self).len() ==> r == TransferStep::Finished
                && final(self).done() == old(self).done(),
            exists|res: Result<usize, i32>|
                step_of((old(self).len() - old(self).done()) as nat, res) == r
                    && final(self).done() == done_after(old(self).len(), old(self).done(), res),
    {
        if self.done == self.len {
            proof {
                let res = Ok::<usize, i32>(0);
                assert(step_of((old(self).len() - old(self).done()) as nat, res)
                    == TransferStep::Finished && self.done() == done_after(
                    old(self).len(),
                    old(self).done(),
                    res,
                ));
            }
            return TransferStep::Finished;
        }
        let rest = self.remainder(data);
        let res = vmsplice_gift(fd, rest);
        let r = self.on_result(res);
        assert(step_of((old(self).len() - old(self).done()) as nat, res) == r);
        r
    }

}

} // verus!

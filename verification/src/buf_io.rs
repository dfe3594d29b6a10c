//! Buffered I/O (`BufWriter` / `BufReader`) over file descriptors of a `VirtualFs`.
use vstd::prelude::*;
use crate::errors::{FsError, FsResult};
use crate::fd::FileDescriptor;
use crate::laws::lemma_write_compose;
use crate::model::{FsView, fd_file, min_int, read_spec, write_fits, write_spec};
use crate::text::append_range;
use crate::virtual_fs::VirtualFs;

verus! {

/// The number of bytes that leave a writer's buffer when `total_len` bytes
/// have gone into it: every full buffer of `capacity` bytes, or every byte
/// when the capacity is zero.
pub open spec fn flush_len(total_len: nat, capacity: nat) -> nat {
    if capacity == 0 {
        total_len
    } else {
        (total_len - total_len % capacity) as nat
    }
}

/// A simple buffered writer that batches writes.
#[derive(Debug)]
pub struct BufWriter {
    fd: u32,
    buffer: Vec<u8>,
    capacity: usize,
}

/// A buffered writer as mathematical values.
#[verifier::ext_equal]
pub struct BufWriterView {
    pub fd: u32,
    pub buffer: Seq<u8>,
    pub capacity: usize,
}

impl View for BufWriter {
    type V = BufWriterView;

    closed spec fn view(&self) -> BufWriterView {
        BufWriterView { fd: self.fd, buffer: self.buffer@, capacity: self.capacity }
    }
}

proof fn lemma_multiple_below(m: nat, c: nat, total: nat)
    requires
        c > 0,
        m * c <= total,
    ensures
        m * c <= flush_len(total, c),
{
    vstd::arithmetic::div_mod::lemma_fundamental_div_mod(total as int, c as int);
    let q = total as int / c as int;
    let r = total as int % c as int;
    assert(flush_len(total, c) == total - r);
    assert(c * q == q * c) by (nonlinear_arith);
    assert(m <= q) by (nonlinear_arith)
        requires
            m * c <= total,
            c > 0,
            total == c * q + r,
            0 <= r < c,
    ;
    assert(m * c <= q * c) by (nonlinear_arith)
        requires
            m <= q,
            c > 0,
    ;
}

impl BufWriter {
    /// Nothing stays buffered once the buffer is full.
    pub closed spec fn wf(&self) -> bool {
        self.buffer@.len() == 0 || self.buffer@.len() < self.capacity
    }

    /// Create a new buffered writer for the given file descriptor.
    pub fn new(fd: u32, capacity: usize) -> (r: Self)
        ensures
            r.wf(),
            r@ == (BufWriterView { fd, buffer: Seq::empty(), capacity }),
    {
        Self { fd, buffer: Vec::with_capacity(capacity), capacity }
    }

    /// Write data into the internal buffer, flushing to `fs` if the buffer
    /// would exceed its capacity.
    pub fn write(&mut self, fs: &mut VirtualFs, data: &[u8]) -> (r: FsResult<()>)
        requires
            old(self).wf(),
            old(fs).wf(),
            write_fits(
                old(fs)@,
                old(self)@.fd,
                flush_len((old(self)@.buffer + data@).len(), old(self)@.capacity as nat),
            ),
        ensures
            final(self).wf(),
            final(fs).wf(),
            final(self)@.fd == old(self)@.fd,
            final(self)@.capacity == old(self)@.capacity,
            ({
                let total = old(self)@.buffer + data@;
                let f = flush_len(total.len(), old(self)@.capacity as nat);
                if f == 0 {
                    &&& r is Ok
                    &&& final(fs)@ == old(fs)@
                    &&& final(self)@.buffer == total
                } else {
                    match fd_file(old(fs)@, old(self)@.fd, true) {
                        Err(e) => {
                            &&& r == Err::<(), FsError>(e)
                            &&& final(fs)@ == old(fs)@
                            &&& final(self)@.buffer == Seq::<u8>::empty()
                        },
                        Ok(_) => {
                            &&& r is Ok
                            &&& final(fs)@ == write_spec(old(fs)@, old(self)@.fd, total.take(f as int)).1
                            &&& final(self)@.buffer == total.skip(f as int)
                        },
                    }
                }
            }),
    {
        let ghost b0 = self.buffer@;
        let ghost fs0 = fs@;
        let ghost fd = self.fd;
        let ghost c = self.capacity as nat;
        let ghost total = b0 + data@;
        let ghost f = flush_len(total.len(), c);
        let ghost mut flushed: nat = 0;
        let ghost mut q: nat = 0;
        let mut k: usize = 0;
        assert(b0 + data@.take(0) =~= b0);
        assert(b0.skip(0) =~= b0);
        while k < data.len()
            invariant
                fs.wf(),
                k <= data@.len(),
                self.fd == fd,
                self.capacity == c,
                fd == old(self)@.fd,
                c == old(self)@.capacity,
                b0 == old(self)@.buffer,
                fs0 == old(fs)@,
                total == b0 + data@,
                f == flush_len(total.len(), c),
                write_fits(fs0, fd, f),
                flushed <= (b0 + data@.take(k as int)).len(),
                self.buffer@ == (b0 + data@.take(k as int)).skip(flushed as int),
                c > 0 ==> flushed == q * c && (b0 + data@.take(k as int)).len() - flushed < c,
                c == 0 ==> flushed == (b0 + data@.take(k as int)).len(),
                flushed == 0 ==> fs@ == fs0,
                flushed > 0 ==> fd_file(fs0, fd, true) is Ok && fs@ == write_spec(
                    fs0,
                    fd,
                    (b0 + data@.take(k as int)).take(flushed as int),
                ).1,
            decreases data.len() - k,
        {
            let ghost tk = b0 + data@.take(k as int);
            let ghost tk1 = b0 + data@.take(k + 1);
            assert(tk1 =~= tk.push(data@[k as int]));
            let byte = data[k];
            self.buffer.push(byte);
            assert(self.buffer@ =~= tk1.skip(flushed as int));
            assert(tk.take(flushed as int) =~= tk1.take(flushed as int));
            if self.buffer.len() >= self.capacity {
                let ghost fs_before = fs@;
                let ghost chunk = self.buffer@;
                proof {
                    if c > 0 {
                        assert(chunk.len() == c);
                        assert(tk1.len() == (q + 1) * c) by (nonlinear_arith)
                            requires
                                tk1.len() == flushed + c,
                                flushed == q * c,
                        ;
                        lemma_multiple_below(q + 1, c, total.len());
                    }
                    assert(tk1.len() <= f);
                    if flushed > 0 {
                        lemma_write_compose(fs0, fd, tk.take(flushed as int), chunk);
                        assert(tk.take(flushed as int) =~= tk1.take(flushed as int));
                    }
                }
                let res = self.flush(fs);
                proof {
                    if res is Ok {
                        if flushed > 0 {
                            assert(tk1.take(flushed as int) + chunk =~= tk1.take(tk1.len() as int));
                        } else {
                            assert(chunk =~= tk1.take(tk1.len() as int));
                        }
                    }
                }
                res?;
                proof {
                    flushed = tk1.len();
                    q = q + 1;
                    assert(self.buffer@ =~= tk1.skip(flushed as int));
                }
            }
            k = k + 1;
        }
        proof {
            assert(data@.take(k as int) =~= data@);
            if c > 0 {
                vstd::arithmetic::div_mod::lemma_fundamental_div_mod_converse(
                    total.len() as int,
                    c as int,
                    q as int,
                    total.len() - flushed,
                );
            }
            assert(flushed == f);
            if f == 0 {
                assert(total.skip(0) =~= total);
            }
        }
        Ok(())
    }

    /// Flush any buffered data to the filesystem.
    pub fn flush(&mut self, fs: &mut VirtualFs) -> (r: FsResult<()>)
        requires
            old(fs).wf(),
            write_fits(old(fs)@, old(self)@.fd, old(self)@.buffer.len()),
        ensures
            final(fs).wf(),
            final(self).wf(),
            final(self)@ == (BufWriterView { buffer: Seq::empty(), ..old(self)@ }),
            old(self)@.buffer.len() == 0 ==> r is Ok && final(fs)@ == old(fs)@,
            old(self)@.buffer.len() > 0 ==> {
                &&& final(fs)@ == write_spec(old(fs)@, old(self)@.fd, old(self)@.buffer).1
                &&& match write_spec(old(fs)@, old(self)@.fd, old(self)@.buffer).0 {
                    Ok(_) => r is Ok,
                    Err(e) => r == Err::<(), FsError>(e),
                }
            },
    {
        if !self.buffer.is_empty() {
            let mut data: Vec<u8> = Vec::new();
            let ghost old_buf = self.buffer@;
            std::mem::swap(&mut data, &mut self.buffer);
            assert(data@ == old_buf);
            assert(self.buffer@.len() == 0);
            fs.write(self.fd, data.as_slice())?;
        }
        assert(self.buffer@ =~= Seq::<u8>::empty());
        assert(self@ =~= (BufWriterView { buffer: Seq::empty(), ..old(self)@ }));
        Ok(())
    }

    /// Return how many bytes are currently buffered.
    pub fn buffered_len(&self) -> (n: usize)
        ensures
            n == self@.buffer.len(),
    {
        self.buffer.len()
    }
}

/// A simple buffered reader that reads in chunks.
#[derive(Debug)]
pub struct BufReader {
    fd: u32,
    buffer: Vec<u8>,
    pos: usize,
    chunk_size: usize,
}

/// A buffered reader as mathematical values.
#[verifier::ext_equal]
pub struct BufReaderView {
    pub fd: u32,
    pub buffer: Seq<u8>,
    pub pos: usize,
    pub chunk_size: usize,
}

impl View for BufReader {
    type V = BufReaderView;

    closed spec fn view(&self) -> BufReaderView {
        BufReaderView {
            fd: self.fd,
            buffer: self.buffer@,
            pos: self.pos,
            chunk_size: self.chunk_size,
        }
    }
}

/// The bytes a reader holds that have not been handed out yet.
pub open spec fn pending(r: BufReaderView) -> Seq<u8> {
    if r.pos < r.buffer.len() {
        r.buffer.skip(r.pos as int)
    } else {
        Seq::empty()
    }
}

/// The bytes of the file behind a readable descriptor from its offset on.
pub open spec fn file_rest(v: FsView, fd: u32) -> Seq<u8> {
    match fd_file(v, fd, false) {
        Ok(d) => if v.fds[fd].offset < d.len() {
            d.skip(v.fds[fd].offset as int)
        } else {
            Seq::empty()
        },
        Err(_) => Seq::empty(),
    }
}

/// Where a descriptor at `off`, on a file of `dlen` bytes, ends after a reader
/// that needs `need` more bytes than it holds refills in chunks of `cs`: it
/// reads chunks until it has what it needs, or until a chunk comes back empty
/// (at the end of the file, or at once when `cs` is 0).
pub open spec fn refill_offset(off: int, dlen: int, cs: int, need: int) -> int {
    if cs == 0 {
        min_int(dlen, off)
    } else if off + need <= dlen {
        min_int(dlen, off + ((need + cs - 1) / cs) * cs)
    } else {
        dlen
    }
}

/// A reader stands at `pos` in the file behind `fd`: what it holds, followed
/// by the rest of the file, is the file from `pos` on.
pub open spec fn reads_at(held: Seq<u8>, v: FsView, fd: u32, pos: int) -> bool {
    &&& fd_file(v, fd, false) is Ok
    &&& 0 <= pos <= fd_file(v, fd, false)->Ok_0.len()
    &&& held + file_rest(v, fd) == fd_file(v, fd, false)->Ok_0.skip(pos)
}

/// The first `n` elements of `s`, or all of it when it is shorter.
pub open spec fn prefix_upto(s: Seq<u8>, n: nat) -> Seq<u8> {
    if n < s.len() {
        s.take(n as int)
    } else {
        s
    }
}

/// `v` with only the offset of descriptor `fd` changed, to `off`.
pub open spec fn with_offset(v: FsView, fd: u32, off: u64) -> FsView {
    FsView { fds: v.fds.insert(fd, FileDescriptor { offset: off, ..v.fds[fd] }), ..v }
}

/// One refill: what `read` on the descriptor hands back, followed by what is
/// left of the file, is what was left before; only the offset moves.
proof fn lemma_refill(fs0: FsView, before: FsView, fd: u32, cs: usize)
    requires
        fd_file(fs0, fd, false) is Ok,
        fd_file(fs0, fd, false)->Ok_0.len() <= usize::MAX,
        fd_file(before, fd, false) == fd_file(fs0, fd, false),
        before == with_offset(fs0, fd, before.fds[fd].offset),
    ensures
        ({
            let (r, after) = read_spec(before, fd, cs as nat);
            let d = fd_file(fs0, fd, false)->Ok_0;
            &&& r is Ok
            &&& r->Ok_0 + file_rest(after, fd) == file_rest(before, fd)
            &&& after == with_offset(fs0, fd, after.fds[fd].offset)
            &&& after.fds[fd].offset <= d.len()
            &&& after.fds[fd].offset == min_int(d.len() as int, before.fds[fd].offset + cs)
            &&& fd_file(after, fd, false) == fd_file(fs0, fd, false)
            &&& (cs == 0 ==> r->Ok_0.len() == 0)
            &&& (cs > 0 && r->Ok_0.len() == 0 ==> file_rest(after, fd) == Seq::<u8>::empty())
        }),
{
    let (r, after) = read_spec(before, fd, cs as nat);
    let d = fd_file(fs0, fd, false)->Ok_0;
    let ob = before.fds[fd].offset as int;
    let end = if d.len() < ob + cs {
        d.len() as int
    } else {
        ob + cs
    };
    assert(after.fds =~= with_offset(fs0, fd, end as u64).fds);
    assert(after =~= with_offset(fs0, fd, end as u64));
    assert(fd_file(after, fd, false) == fd_file(fs0, fd, false));
    if ob < d.len() {
        assert(r->Ok_0 + file_rest(after, fd) =~= file_rest(before, fd));
    } else {
        assert(file_rest(before, fd) =~= Seq::<u8>::empty());
        assert(file_rest(after, fd) =~= Seq::<u8>::empty());
        assert(r->Ok_0 + file_rest(after, fd) =~= file_rest(before, fd));
    }
}

/// Handing out `take` bytes of the pending buffer moves them to the result.
proof fn lemma_consume(r0: Seq<u8>, buf: Seq<u8>, pos: int, take: int, p0: Seq<u8>)
    requires
        0 <= pos,
        0 <= take,
        pos + take <= buf.len(),
        r0.len() <= p0.len(),
        r0 == p0.take(r0.len() as int),
        buf.skip(pos) == p0.skip(r0.len() as int),
    ensures
        r0 + buf.subrange(pos, pos + take) == p0.take(r0.len() + take),
        r0.len() + take <= p0.len(),
        buf.skip(pos + take) == p0.skip(r0.len() + take),
{
    assert(buf.skip(pos).len() == p0.len() - r0.len());
    assert(r0 + buf.subrange(pos, pos + take) =~= p0.take(r0.len() + take)) by {
        assert forall|i: int| r0.len() <= i < r0.len() + take implies #[trigger] p0[i] == buf[pos + i - r0.len()] by {
            let j = i - r0.len();
            assert(buf.skip(pos)[j] == buf[pos + j]);
            assert(p0.skip(r0.len() as int)[j] == p0[r0.len() + j]);
            assert(buf.skip(pos)[j] == p0.skip(r0.len() as int)[j]);
        }
    }
    assert(buf.skip(pos + take) =~= p0.skip(r0.len() + take)) by {
        assert forall|i: int| 0 <= i < buf.len() - pos - take implies #[trigger] buf.skip(pos + take)[i] == p0.skip(r0.len() + take)[i] by {
            assert(buf.skip(pos + take)[i] == buf[pos + take + i]);
            assert(buf.skip(pos)[take + i] == buf[pos + take + i]);
            assert(p0.skip(r0.len() + take)[i] == p0[r0.len() + take + i]);
            assert(p0.skip(r0.len() as int)[take + i] == p0[r0.len() + take + i]);
            assert(buf.skip(pos)[take + i] == p0.skip(r0.len() as int)[take + i]);
        }
    }
}

/// How many bytes of the file are left behind a readable descriptor.
proof fn lemma_file_rest_len(v: FsView, fd: u32)
    requires
        fd_file(v, fd, false) is Ok,
    ensures
        file_rest(v, fd).len() == fd_file(v, fd, false)->Ok_0.len() - min_int(
            fd_file(v, fd, false)->Ok_0.len() as int,
            v.fds[fd].offset as int,
        ),
{
}

/// One more chunk of `cs` moves the offset of `m` chunks on by `cs`, up to
/// the end of the file.
proof fn lemma_refill_step(o0: int, dlen: int, cs: int, m: int)
    requires
        cs >= 0,
        m >= 0,
    ensures
        min_int(dlen, min_int(dlen, o0 + m * cs) + cs) == min_int(dlen, o0 + (m + 1) * cs),
        min_int(dlen, o0 + 0 * cs) == min_int(dlen, o0),
{
    assert((m + 1) * cs == m * cs + cs) by (nonlinear_arith);
    assert(0 * cs == 0) by (nonlinear_arith);
}

/// After `m` chunks of `cs`, where `m - 1` chunks gave less than `need` bytes
/// and `m` chunks gave enough, the offset is where `refill_offset` says.
proof fn lemma_refill_offset_exact(o0: int, dlen: int, cs: int, need: int, m: int)
    requires
        cs > 0,
        m > 0,
        need > 0,
        o0 >= 0,
        o0 + need <= dlen,
        min_int(dlen, o0 + (m - 1) * cs) < o0 + need,
        o0 + need <= min_int(dlen, o0 + m * cs),
    ensures
        min_int(dlen, o0 + m * cs) == refill_offset(o0, dlen, cs, need),
{
    let k = m - 1;
    assert(k * cs < need);
    assert(need <= m * cs);
    assert(m * cs == k * cs + cs) by (nonlinear_arith)
        requires
            m == k + 1,
    ;
    assert((need + cs - 1) / cs == m) by (nonlinear_arith)
        requires
            cs > 0,
            k * cs < need,
            need <= k * cs + cs,
            m == k + 1,
    ;
}

impl BufReader {
    /// The read position lies within the buffer.
    pub closed spec fn wf(&self) -> bool {
        self.pos <= self.buffer@.len()
    }

    /// Create a new buffered reader for the given file descriptor.
    pub fn new(fd: u32, chunk_size: usize) -> (r: Self)
        ensures
            r.wf(),
            r@ == (BufReaderView { fd, buffer: Seq::empty(), pos: 0, chunk_size }),
    {
        Self { fd, buffer: Vec::new(), pos: 0, chunk_size }
    }

    /// Read up to `len` bytes, refilling the internal buffer as needed.
    #[verifier::rlimit(60)]
    pub fn read(&mut self, fs: &mut VirtualFs, len: usize) -> (r: FsResult<Vec<u8>>)
        requires
            old(self).wf(),
            old(fs).wf(),
        ensures
            final(self).wf(),
            final(fs).wf(),
            final(self)@.fd == old(self)@.fd,
            final(self)@.chunk_size == old(self)@.chunk_size,
            // Reading through the buffer gives what reading the file from the
            // reader's position gives, and moves that position on.
            old(self)@.chunk_size > 0 ==> forall|pos: int|
                #![trigger reads_at(pending(old(self)@), old(fs)@, old(self)@.fd, pos)]
                reads_at(pending(old(self)@), old(fs)@, old(self)@.fd, pos) ==> {
                    let d = fd_file(old(fs)@, old(self)@.fd, false)->Ok_0;
                    &&& r is Ok
                    &&& r->Ok_0@ == d.subrange(pos, min_int(d.len() as int, pos + len))
                    &&& fd_file(final(fs)@, old(self)@.fd, false) == fd_file(old(fs)@, old(self)@.fd, false)
                    &&& reads_at(pending(final(self)@), final(fs)@, old(self)@.fd, pos + r->Ok_0@.len())
                },
            ({
                let fd = old(self)@.fd;
                let p = pending(old(self)@);
                let stream = p + file_rest(old(fs)@, fd);
                if len <= p.len() {
                    &&& r is Ok
                    &&& r->Ok_0@ == p.take(len as int)
                    &&& final(fs)@ == old(fs)@
                    &&& pending(final(self)@) == p.skip(len as int)
                } else {
                    match fd_file(old(fs)@, fd, false) {
                        Err(e) => {
                            &&& r == Err::<Vec<u8>, FsError>(e)
                            &&& final(fs)@ == old(fs)@
                            &&& pending(final(self)@) == Seq::<u8>::empty()
                        },
                        Ok(_) => {
                            &&& r is Ok
                            &&& r->Ok_0@ == (if old(self)@.chunk_size > 0 {
                                prefix_upto(stream, len as nat)
                            } else {
                                p
                            })
                            &&& pending(final(self)@) + file_rest(final(fs)@, fd) == stream.skip(
                                r->Ok_0@.len() as int,
                            )
                            &&& final(fs)@ == with_offset(
                                old(fs)@,
                                fd,
                                refill_offset(
                                    old(fs)@.fds[fd].offset as int,
                                    fd_file(old(fs)@, fd, false)->Ok_0.len() as int,
                                    old(self)@.chunk_size as int,
                                    len - p.len(),
                                ) as u64,
                            )
                        },
                    }
                }
            }),
    {
        let ghost fs0 = fs@;
        let ghost fd = self.fd;
        let ghost p0 = pending(self@);
        let ghost stream = p0 + file_rest(fs0, fd);
        let ghost o0 = fs0.fds[fd].offset;
        let mut result: Vec<u8> = Vec::with_capacity(len);
        let mut remaining = len;
        let ghost mut refilled = false;
        // The number of chunks read from the descriptor so far.
        let ghost mut m: nat = 0;
        let ghost dlen = fd_file(fs0, fd, false)->Ok_0.len() as int;
        let ghost cs = self.chunk_size as int;
        assert(result@ + pending(self@) + file_rest(fs@, fd) =~= stream);
        assert(p0.take(0) =~= result@);
        assert(p0.skip(0) =~= p0);

        while remaining > 0
            invariant_except_break
                refilled ==> self.chunk_size > 0,
                self.chunk_size == 0 ==> m == 0,
            invariant
                refilled == (m > 0),
                cs == self.chunk_size,
                dlen == fd_file(fs0, fd, false)->Ok_0.len(),
                m > 0 ==> fs@.fds[fd].offset == min_int(dlen, o0 + m * cs),
                m > 0 ==> p0.len() + min_int(dlen, o0 + (m - 1) * cs) < len + min_int(dlen, o0 as int),
                self.pos <= self.buffer@.len(),
                fs.wf(),
                self.fd == fd,
                self.chunk_size == old(self)@.chunk_size,
                fd == old(self)@.fd,
                fs0 == old(fs)@,
                p0 == pending(old(self)@),
                stream == p0 + file_rest(fs0, fd),
                o0 == fs0.fds[fd].offset,
                remaining <= len,
                result@.len() + remaining == len,
                result@ + pending(self@) + file_rest(fs@, fd) == stream,
                !refilled ==> fs@ == fs0 && result@.len() <= p0.len() && result@ == p0.take(result@.len() as int)
                    && pending(self@) == p0.skip(result@.len() as int),
                refilled ==> {
                    &&& fd_file(fs0, fd, false) is Ok
                    &&& p0.len() < len
                    &&& fs@ == with_offset(fs0, fd, fs@.fds[fd].offset)
                    &&& (fs@.fds[fd].offset == o0 || fs@.fds[fd].offset <= fd_file(
                        fs0,
                        fd,
                        false,
                    )->Ok_0.len())
                },
                fd_file(fs@, fd, false) == fd_file(fs0, fd, false),
            ensures
                self.pos <= self.buffer@.len(),
                fs.wf(),
                self.fd == fd,
                self.chunk_size == old(self)@.chunk_size,
                result@.len() + remaining == len,
                result@ + pending(self@) + file_rest(fs@, fd) == stream,
                !refilled ==> fs@ == fs0 && result@.len() <= p0.len() && result@ == p0.take(result@.len() as int)
                    && pending(self@) == p0.skip(result@.len() as int),
                refilled ==> {
                    &&& fd_file(fs0, fd, false) is Ok
                    &&& p0.len() < len
                    &&& fs@ == with_offset(fs0, fd, fs@.fds[fd].offset)
                    &&& (fs@.fds[fd].offset == o0 || fs@.fds[fd].offset <= fd_file(
                        fs0,
                        fd,
                        false,
                    )->Ok_0.len())
                },
                remaining == 0 && refilled ==> self.chunk_size > 0,
                refilled == (m > 0),
                self.chunk_size == 0 && m > 0 ==> m == 1,
                m > 0 ==> fs@.fds[fd].offset == min_int(dlen, o0 + m * cs),
                m > 0 ==> p0.len() + min_int(dlen, o0 + (m - 1) * cs) < len + min_int(dlen, o0 as int),
                remaining > 0 ==> refilled && pending(self@) == Seq::<u8>::empty() && (
                self.chunk_size == 0 || file_rest(fs@, fd) == Seq::<u8>::empty()),
                remaining > 0 && self.chunk_size == 0 ==> result@ == p0,
            decreases remaining,
        {
            if self.pos >= self.buffer.len() {
                // refill
                let ghost fs_before = fs@;
                let ghost res_before = result@;
                proof {
                    if fd_file(fs0, fd, false) is Ok {
                        lemma_file_rest_len(fs_before, fd);
                        lemma_file_rest_len(fs0, fd);
                    }
                    lemma_refill_step(o0 as int, dlen, cs, m as int);
                    assert(res_before.len() + file_rest(fs_before, fd).len() == stream.len());
                }
                proof {
                    if !refilled {
                        assert(res_before =~= p0);
                    }
                }
                let chunk = fs.read(self.fd, self.chunk_size)?;
                self.buffer = chunk;
                self.pos = 0;
                proof {
                    if !refilled {
                        assert(fs_before.fds =~= with_offset(fs0, fd, o0).fds);
                        assert(fs_before =~= with_offset(fs0, fd, o0));
                    }
                    fs.lemma_file_len(fs0.fds[fd].inode_id);
                    lemma_refill(fs0, fs_before, fd, self.chunk_size);
                    assert(self.buffer@.skip(0) =~= self.buffer@);
                    refilled = true;
                    m = m + 1;
                }
                if self.buffer.is_empty() {
                    break;  // EOF
                }
            }
            let available = self.buffer.len() - self.pos;
            let take = if remaining < available {
                remaining
            } else {
                available
            };
            let ghost r0 = result@;
            let ghost pend = pending(self@);
            append_range(&mut result, &self.buffer, self.pos, self.pos + take);
            self.pos += take;
            remaining -= take;
            proof {
                assert(pending(self@) =~= pend.skip(take as int));
                assert(result@ =~= r0 + pend.take(take as int));
                assert(result@ + pending(self@) =~= r0 + pend);
                if !refilled {
                    lemma_consume(r0, self.buffer@, (self.pos - take) as int, take as int, p0);
                }
            }
        }
        proof {
            let rest = pending(self@) + file_rest(fs@, fd);
            assert(result@ + rest =~= stream);
            assert(stream.skip(result@.len() as int) =~= rest);
            if remaining == 0 {
                assert(stream == result@ + rest);
                if len < stream.len() {
                    assert(stream.take(len as int) =~= result@);
                } else {
                    assert(rest.len() == 0);
                    assert(stream =~= result@);
                }
            } else if self.chunk_size > 0 {
                assert(rest =~= Seq::<u8>::empty());
                assert(stream =~= result@);
            }
            if !refilled {
                assert(pending(self@) =~= p0.skip(len as int));
            }
            if refilled {
                // Where the descriptor's offset ends.
                let oe = min_int(dlen, o0 as int);
                let off = fs@.fds[fd].offset as int;
                let need = len - p0.len();
                lemma_file_rest_len(fs@, fd);
                lemma_file_rest_len(fs0, fd);
                assert(off <= dlen);
                assert(result@.len() + pending(self@).len() == p0.len() + off - oe);
                if self.chunk_size == 0 {
                    assert(m == 1);
                    lemma_refill_step(o0 as int, dlen, cs, 0);
                    assert(o0 + 1 * cs == o0 + cs) by (nonlinear_arith);
                } else if remaining > 0 {
                    assert(off == dlen);
                } else {
                    assert(o0 + need <= dlen);
                    lemma_refill_offset_exact(o0 as int, dlen, cs, need, m as int);
                }
                assert(off == refill_offset(o0 as int, dlen, cs, need));
            }
            if self.chunk_size > 0 {
                assert forall|pos: int| #[trigger] reads_at(p0, fs0, fd, pos) implies {
                    let d = fd_file(fs0, fd, false)->Ok_0;
                    &&& result@ == d.subrange(pos, min_int(d.len() as int, pos + len))
                    &&& reads_at(pending(self@), fs@, fd, pos + result@.len())
                } by {
                    let d = fd_file(fs0, fd, false)->Ok_0;
                    assert(stream == d.skip(pos));
                    if len < stream.len() {
                        assert(result@ =~= d.subrange(pos, pos + len));
                    } else {
                        assert(result@ =~= d.subrange(pos, d.len() as int));
                    }
                    assert(stream.skip(result@.len() as int) =~= d.skip(pos + result@.len()));
                }
            }
        }
        Ok(result)
    }
}

} // verus!

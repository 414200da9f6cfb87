//! The filesystem service's request handling: the state it keeps between
//! messages (the client's shared buffer and reply endpoint, the first half
//! of a name being opened, the open file) and what each request does to
//! that state, to the disk, and which reply it earns. Receiving requests,
//! mapping the client's buffer and sending replies are the caller's part.
use vstd::prelude::*;
use crate::bytes::splice;
use crate::fs::device::BlockDevice;
use crate::fs::fat32::{
    dirent_update_spec, in_sector, open_or_create, open_or_create_spec, read_file, read_file_spec, truncate_file,
    write_file, write_file_spec, write_len, Bpb, OpenFile,
};
use crate::ipc::{
    msg, Message, RecvResult, FS_OP_OPEN_NAME1, FS_OP_OPEN_NAME2, FS_OP_READ, FS_OP_SET_BUFFER, FS_OP_SET_REPLY,
    FS_OP_TRUNCATE, FS_OP_WRITE,
};

verus! {

/// The little-endian bytes of `w`.
pub open spec fn le_bytes(w: u32) -> Seq<u8> {
    seq![(w % 256) as u8, ((w / 0x100) % 256) as u8, ((w / 0x10000) % 256) as u8, (w / 0x1000000) as u8]
}

/// The service's state between messages.
pub struct FsState {
    pub mapped: bool,
    pub reply: u32,
    pub pending: Seq<u8>,
    pub file: Option<OpenFile>,
}

/// The filesystem service for one volume and one client.
pub struct FsServer {
    pub bpb: Bpb,
    /// The client's shared buffer is mapped.
    pub client_buf_mapped: bool,
    /// Where replies go (0 until the client sets it).
    pub client_reply: u32,
    /// The first 8 bytes of the 8.3 name being opened.
    pub pending_name_lo: [u8; 8],
    pub open_file: Option<OpenFile>,
}

/// What one request does, on a disk that never fails: the state after,
/// the reply, the disk after, and the client's buffer after.
/// `map_ok` says whether mapping the buffer a set-buffer request hands
/// over worked.
pub open spec fn fs_step(bpb: Bpb, st: FsState, d: Map<u32, Seq<u8>>, r: RecvResult, map_ok: bool, buf: Seq<u8>) -> (FsState, Option<Message>, Map<u32, Seq<u8>>, Seq<u8>) {
    if r.w0 == FS_OP_SET_BUFFER {
        (FsState { mapped: st.mapped || (r.transferred_slot != 0 && map_ok), ..st }, None, d, buf)
    } else if r.w0 == FS_OP_SET_REPLY {
        (FsState { reply: if r.transferred_slot != 0 { r.transferred_slot } else { st.reply }, ..st }, None, d, buf)
    } else if r.w0 == FS_OP_OPEN_NAME1 {
        (FsState { pending: le_bytes(r.w1) + le_bytes(r.w2), ..st }, None, d, buf)
    } else if r.w0 == FS_OP_OPEN_NAME2 {
        if st.reply == 0 {
            (st, None, d, buf)
        } else {
            let name = st.pending + le_bytes(r.w1).subrange(0, 3);
            let (res, d1) = open_or_create_spec(d, bpb, name, r.w2 != 0);
            match res {
                Some((c, size, loc)) => (
                    FsState { file: Some(OpenFile { start_cluster: c, size, dirent: loc }), ..st },
                    Some(msg(st.reply, 1, size, 0, 0)),
                    d1,
                    buf,
                ),
                None => (FsState { file: None, ..st }, Some(msg(st.reply, 0, 0, 0, 0)), d1, buf),
            }
        }
    } else if r.w0 == FS_OP_READ {
        if st.reply == 0 {
            (st, None, d, buf)
        } else if !st.mapped {
            (st, Some(msg(st.reply, 0, 0, 0, 0)), d, buf)
        } else {
            match st.file {
                None => (st, Some(msg(st.reply, 0, 0, 0, 0)), d, buf),
                Some(f) => match read_file_spec(d, bpb, f, r.w1, r.w2) {
                    Some((sector, at, m)) => (
                        st,
                        Some(msg(st.reply, m as u32, 0, 0, 0)),
                        d,
                        splice(buf, 0, d[sector].subrange(at, at + m)),
                    ),
                    None => (st, Some(msg(st.reply, 0, 0, 0, 0)), d, buf),
                },
            }
        }
    } else if r.w0 == FS_OP_WRITE {
        if st.reply == 0 {
            (st, None, d, buf)
        } else if !st.mapped {
            (st, Some(msg(st.reply, 0, 0, 0, 0)), d, buf)
        } else {
            match st.file {
                None => (st, Some(msg(st.reply, 0, 0, 0, 0)), d, buf),
                Some(f) => {
                    let (n, f2, d2) = write_file_spec(d, bpb, f, r.w1, r.w2, buf);
                    (FsState { file: Some(f2), ..st }, Some(msg(st.reply, n, 0, 0, 0)), d2, buf)
                },
            }
        }
    } else if r.w0 == FS_OP_TRUNCATE {
        if st.reply == 0 {
            (st, None, d, buf)
        } else {
            match st.file {
                None => (st, Some(msg(st.reply, 0, 0, 0, 0)), d, buf),
                Some(f) => if r.w1 > f.size {
                    (st, Some(msg(st.reply, 0, 0, 0, 0)), d, buf)
                } else {
                    let (ok, d2) = dirent_update_spec(d, f.dirent, f.start_cluster, r.w1);
                    (
                        FsState { file: Some(OpenFile { size: r.w1, ..f }), ..st },
                        Some(msg(st.reply, if ok { 1 } else { 0 }, 0, 0, 0)),
                        d2,
                        buf,
                    )
                },
            }
        }
    } else {
        (st, None, d, buf)
    }
}

impl FsServer {
    pub open spec fn view(&self) -> FsState {
        FsState {
            mapped: self.client_buf_mapped,
            reply: self.client_reply,
            pending: self.pending_name_lo@,
            file: self.open_file,
        }
    }

    /// The volume geometry is usable and the open file's directory entry
    /// lies inside its sector.
    pub open spec fn wf(&self) -> bool {
        &&& self.bpb.usable()
        &&& self.open_file matches Some(f) ==> f.dirent.valid()
    }

    /// A write request that would take the file past 4 GiB - 1.
    pub open spec fn write_overflows(&self, r: RecvResult) -> bool {
        &&& r.w0 == FS_OP_WRITE
        &&& self.client_reply != 0
        &&& self.client_buf_mapped
        &&& self.open_file matches Some(f) && r.w1 <= f.size && r.w1 + write_len(in_sector(self.bpb, r.w1), r.w2)
            > u32::MAX
    }

    /// A fresh service for the volume `bpb`: no buffer, no reply endpoint,
    /// no file open.
    pub fn new(bpb: Bpb) -> (r: Self)
        requires
            bpb.usable(),
        ensures
            r.wf(),
            r.bpb == bpb,
            r@ == (FsState { mapped: false, reply: 0, pending: seq![0u8, 0, 0, 0, 0, 0, 0, 0], file: None }),
    {
        let r = FsServer { bpb, client_buf_mapped: false, client_reply: 0, pending_name_lo: [0u8; 8], open_file: None };
        assert(r.pending_name_lo@ =~= seq![0u8, 0, 0, 0, 0, 0, 0, 0]);
        r
    }

    /// Whether request `r` asks for the capability it carries to be mapped
    /// as the client's shared buffer.
    pub fn needs_mapping(r: &RecvResult) -> (b: bool)
        ensures
            b == (r.w0 == FS_OP_SET_BUFFER && r.transferred_slot != 0),
    {
        r.w0 == FS_OP_SET_BUFFER && r.transferred_slot != 0
    }

    /// Whether `r` can be handled: a write that would take the file past
    /// 4 GiB - 1 cannot.
    pub fn request_fits(&self, r: &RecvResult) -> (b: bool)
        requires
            self.wf(),
        ensures
            b == !self.write_overflows(*r),
    {
        if r.w0 == FS_OP_WRITE && self.client_reply != 0 && self.client_buf_mapped {
            if let Some(f) = &self.open_file {
                if r.w1 <= f.size {
                    let cs = self.bpb.cluster_size_bytes();
                    let at = (r.w1 % cs) % 512;
                    let n = if r.w2 < 512 - at { r.w2 } else { 512 - at };
                    return (r.w1 as u64) + (n as u64) <= 0xFFFF_FFFF;
                }
            }
        }
        true
    }

    /// Handles one request (see `fs_step`). `map_ok` reports whether the
    /// caller mapped the buffer a set-buffer request carries (see
    /// `needs_mapping`); `client_buf` is that shared buffer.
    pub fn handle<D: BlockDevice>(&mut self, dev: &mut D, r: &RecvResult, map_ok: bool, client_buf: &mut [u8; 512]) -> (reply: Option<Message>)
        requires
            old(self).wf(),
            !old(self).write_overflows(*r),
        ensures
            final(self).wf(),
            final(self).bpb == old(self).bpb,
            old(dev).reliable() ==> final(dev).reliable(),
            old(dev).reliable() ==> (final(self)@, reply, final(dev).sectors(), final(client_buf)@) == fs_step(
                old(self).bpb,
                old(self)@,
                old(dev).sectors(),
                *r,
                map_ok,
                old(client_buf)@,
            ),
            reply matches Some(m) ==> m.dest_slot == old(self).client_reply && m.dest_slot != 0,
    {
        if r.w0 == FS_OP_SET_BUFFER {
            if r.transferred_slot != 0 && map_ok {
                self.client_buf_mapped = true;
            }
            None
        } else if r.w0 == FS_OP_SET_REPLY {
            if r.transferred_slot != 0 {
                self.client_reply = r.transferred_slot;
            }
            None
        } else if r.w0 == FS_OP_OPEN_NAME1 {
            let a = le_word(r.w1);
            let b = le_word(r.w2);
            self.pending_name_lo = [a[0], a[1], a[2], a[3], b[0], b[1], b[2], b[3]];
            assert(self.pending_name_lo@ =~= le_bytes(r.w1) + le_bytes(r.w2));
            None
        } else if r.w0 == FS_OP_OPEN_NAME2 {
            if self.client_reply == 0 {
                return None;
            }
            let t = le_word(r.w1);
            let p = self.pending_name_lo;
            let name: [u8; 11] = [p[0], p[1], p[2], p[3], p[4], p[5], p[6], p[7], t[0], t[1], t[2]];
            assert(name@ =~= p@ + le_bytes(r.w1).subrange(0, 3));
            match open_or_create(&self.bpb, dev, &name, r.w2 != 0) {
                Some((start_cluster, size, dirent)) => {
                    self.open_file = Some(OpenFile { start_cluster, size, dirent });
                    Some(Message { dest_slot: self.client_reply, w0: 1, w1: size, w2: 0, transfer_slot: 0 })
                },
                None => {
                    self.open_file = None;
                    Some(Message { dest_slot: self.client_reply, w0: 0, w1: 0, w2: 0, transfer_slot: 0 })
                },
            }
        } else if r.w0 == FS_OP_READ {
            if self.client_reply == 0 {
                return None;
            }
            if !self.client_buf_mapped {
                return Some(Message { dest_slot: self.client_reply, w0: 0, w1: 0, w2: 0, transfer_slot: 0 });
            }
            let n = match &self.open_file {
                Some(f) => read_file(&self.bpb, dev, f, r.w1, r.w2, client_buf),
                None => 0,
            };
            Some(Message { dest_slot: self.client_reply, w0: n, w1: 0, w2: 0, transfer_slot: 0 })
        } else if r.w0 == FS_OP_WRITE {
            if self.client_reply == 0 {
                return None;
            }
            if !self.client_buf_mapped {
                return Some(Message { dest_slot: self.client_reply, w0: 0, w1: 0, w2: 0, transfer_slot: 0 });
            }
            let n = match &mut self.open_file {
                Some(f) => write_file(&self.bpb, dev, f, r.w1, r.w2, client_buf),
                None => 0,
            };
            Some(Message { dest_slot: self.client_reply, w0: n, w1: 0, w2: 0, transfer_slot: 0 })
        } else if r.w0 == FS_OP_TRUNCATE {
            if self.client_reply == 0 {
                return None;
            }
            let ok = match &mut self.open_file {
                Some(f) => truncate_file(dev, f, r.w1),
                None => 0,
            };
            Some(Message { dest_slot: self.client_reply, w0: ok, w1: 0, w2: 0, transfer_slot: 0 })
        } else {
            None
        }
    }
}

/// The little-endian bytes of `w`.
fn le_word(w: u32) -> (r: [u8; 4])
    ensures
        r@ == le_bytes(w),
{
    let r = [(w % 256) as u8, ((w / 0x100) % 256) as u8, ((w / 0x10000) % 256) as u8, (w / 0x1000000) as u8];
    assert(r@ =~= le_bytes(w));
    r
}

} // verus!

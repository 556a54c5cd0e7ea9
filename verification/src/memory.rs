//! Page-granular code regions and their protection state.
//!
//! A region is either writable or executable, never both. This module holds
//! the region's bytes and decides the state transitions; mapping the pages
//! and changing their protection is the caller's part, who reports the
//! outcome of each protection change.

use vstd::prelude::*;

verus! {

/// The size of a page in bytes.
pub const PAGE_SIZE: usize = 4096;

/// The byte that fills a fresh region: a one-byte `ret`.
pub const FILL_BYTE: u8 = 0xc3;

/// What a region is as a value: its bytes and whether it is executable.
pub struct Region {
    pub bytes: Seq<u8>,
    pub executable: bool,
}

/// A region of whole pages that holds machine code.
#[derive(Debug)]
pub struct JitMemory {
    contents: Vec<u8>,
    locked: bool,
}

/// `len` bytes of fill.
pub open spec fn fill(len: int) -> Seq<u8> {
    Seq::new(len as nat, |i: int| FILL_BYTE)
}

/// The number of pages that hold `len` bytes.
pub open spec fn pages_for(len: int) -> int {
    (len + (PAGE_SIZE - 1)) / (PAGE_SIZE as int)
}

/// The bytes of a region that holds `code` at its start and fill behind it.
pub open spec fn region_image(code: Seq<u8>) -> Seq<u8> {
    code + fill(pages_for(code.len() as int) * PAGE_SIZE - code.len())
}

/// A region image is whole pages long, starts with the code and holds the
/// fill byte everywhere behind it.
pub proof fn lemma_region_image(code: Seq<u8>)
    ensures
        region_image(code).len() == pages_for(code.len() as int) * PAGE_SIZE,
        region_image(code).len() >= code.len(),
        region_image(code).len() - code.len() < PAGE_SIZE,
        region_image(code).subrange(0, code.len() as int) == code,
        forall|i: int| code.len() <= i < region_image(code).len() ==> region_image(code)[i] == FILL_BYTE,
{
    let len = code.len() as int;
    assert(pages_for(len) * PAGE_SIZE >= len && pages_for(len) * PAGE_SIZE - len < PAGE_SIZE) by (nonlinear_arith)
        requires
            pages_for(len) == (len + 4095) / 4096,
            PAGE_SIZE == 4096,
            len >= 0,
    ;
    assert(region_image(code).subrange(0, len) =~= code);
}

/// The state after a request to make the region executable, which the
/// system answered with `status`: zero is success.
pub open spec fn lock_result(r: Region, status: i32) -> Region {
    Region { bytes: r.bytes, executable: if status == 0 { true } else { r.executable } }
}

/// The state after a request to make the region writable.
pub open spec fn unlock_result(r: Region, status: i32) -> Region {
    Region { bytes: r.bytes, executable: if status == 0 { false } else { r.executable } }
}

/// Unlocking and locking again leaves an executable region as it was, byte
/// for byte.
pub proof fn lemma_unlock_lock(r: Region)
    requires
        r.executable,
    ensures
        lock_result(unlock_result(r, 0), 0) == r,
{
}

/// No protection change, granted or refused, touches a byte.
pub proof fn lemma_protection_keeps_bytes(r: Region, status: i32)
    ensures
        lock_result(r, status).bytes == r.bytes,
        unlock_result(r, status).bytes == r.bytes,
{
}

impl View for JitMemory {
    type V = Region;

    closed spec fn view(&self) -> Region {
        Region { bytes: self.contents@, executable: self.locked }
    }
}

impl JitMemory {
    #[verifier::type_invariant]
    spec fn whole_pages(&self) -> bool {
        self.contents@.len() % (PAGE_SIZE as nat) == 0
    }

    /// A writable region of `num_pages` pages, filled with `ret`.
    pub fn new(num_pages: usize) -> (m: JitMemory)
        requires
            num_pages * PAGE_SIZE <= usize::MAX,
        ensures
            m@.bytes == fill(num_pages * PAGE_SIZE),
            !m@.executable,
    {
        let size = num_pages * PAGE_SIZE;
        let mut contents: Vec<u8> = Vec::new();
        let mut i: usize = 0;
        while i < size
            invariant
                i <= size,
                contents@ == fill(i as int),
            decreases size - i,
        {
            contents.push(FILL_BYTE);
            assert(contents@ =~= fill(i + 1));
            i = i + 1;
        }
        JitMemory { contents, locked: false }
    }

    /// A writable region of just enough pages for `code`, with `code` at its
    /// start. `None` where the size of the region does not fit the machine.
    pub fn with_code(code: &Vec<u8>) -> (r: Option<JitMemory>)
        ensures
            match r {
                Some(m) => m@.bytes == region_image(code@) && !m@.executable && pages_for(code@.len() as int)
                    * PAGE_SIZE <= usize::MAX,
                None => pages_for(code@.len() as int) * PAGE_SIZE > usize::MAX,
            },
    {
        let len = code.len();
        if len > usize::MAX - (PAGE_SIZE - 1) {
            return None;
        }
        let size = ((len + (PAGE_SIZE - 1)) / PAGE_SIZE) * PAGE_SIZE;
        let mut contents: Vec<u8> = Vec::new();
        let mut i: usize = 0;
        while i < len
            invariant
                i <= len == code.len(),
                contents@ == code@.take(i as int),
            decreases len - i,
        {
            contents.push(code[i]);
            assert(contents@ =~= code@.take(i + 1));
            i = i + 1;
        }
        assert(code@.take(len as int) =~= code@);
        while i < size
            invariant
                len <= i <= size,
                len == code.len(),
                contents@ == code@ + fill(i - len),
            decreases size - i,
        {
            contents.push(FILL_BYTE);
            assert(contents@ =~= code@ + fill(i + 1 - len));
            i = i + 1;
        }
        Some(JitMemory { contents, locked: false })
    }

    /// The number of pages of the region.
    pub fn pages(&self) -> (n: usize)
        ensures
            n * PAGE_SIZE == self@.bytes.len(),
    {
        proof {
            use_type_invariant(self);
        }
        self.contents.len() / PAGE_SIZE
    }

    /// Whether the region is executable, and so no longer writable.
    pub fn is_locked(&self) -> (b: bool)
        ensures
            b == self@.executable,
    {
        self.locked
    }

    /// Records the answer to a request to make the region executable and
    /// hands the status back.
    pub fn lock(&mut self, status: i32) -> (ret: i32)
        ensures
            ret == status,
            final(self)@ == lock_result(old(self)@, status),
    {
        proof {
            use_type_invariant(&*self);
        }
        if status == 0 {
            self.locked = true;
        }
        status
    }

    /// Records the answer to a request to make the region writable and hands
    /// the status back.
    pub fn unlock(&mut self, status: i32) -> (ret: i32)
        ensures
            ret == status,
            final(self)@ == unlock_result(old(self)@, status),
    {
        proof {
            use_type_invariant(&*self);
        }
        if status == 0 {
            self.locked = false;
        }
        status
    }

    /// The bytes of the region.
    pub fn as_slice(&self) -> (s: &[u8])
        ensures
            s@ == self@.bytes,
    {
        self.contents.as_slice()
    }

    /// Writes `bytes` at offset `at`. Nothing is written, and `false` is
    /// returned, where the region is executable or the bytes do not fit.
    pub fn store(&mut self, at: usize, bytes: &Vec<u8>) -> (done: bool)
        ensures
            done == (!old(self)@.executable && at + bytes@.len() <= old(self)@.bytes.len()),
            final(self)@.executable == old(self)@.executable,
            final(self)@.bytes == if done {
                crate::script::overwritten(old(self)@.bytes, at as int, bytes@)
            } else {
                old(self)@.bytes
            },
    {
        proof {
            use_type_invariant(&*self);
        }
        if self.locked || bytes.len() > self.contents.len() || at > self.contents.len() - bytes.len() {
            return false;
        }
        let mut contents: Vec<u8> = Vec::new();
        std::mem::swap(&mut contents, &mut self.contents);
        crate::script::overwrite(&mut contents, at, bytes);
        self.contents = contents;
        true
    }
}

} // verus!

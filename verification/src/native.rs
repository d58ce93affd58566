//! Status codes, a growable byte buffer with explicit capacity accounting,
//! and a scanner with scan accounting and a scratch area.

use vstd::prelude::*;

verus! {

/// Failures reported by the buffer and scanner primitives.
#[derive(Debug, Clone, Copy, PartialEq, Eq, Structural)]
pub enum NativeError {
    AllocationFailed,
    Overflow,
    InvalidArgument,
    CapacityExceeded,
    NativeInvariantViolation,
}

/// The message of an error.
pub open spec fn error_message(e: NativeError) -> Seq<char> {
    match e {
        NativeError::AllocationFailed => "native allocation failed"@,
        NativeError::Overflow => "arithmetic overflow"@,
        NativeError::InvalidArgument => "invalid argument"@,
        NativeError::CapacityExceeded => "capacity exceeded"@,
        NativeError::NativeInvariantViolation => "native invariant violation"@,
    }
}

impl NativeError {
    /// Human-readable message of the error.
    pub fn message(self) -> (r: &'static str)
        ensures
            r@ == error_message(self),
    {
        match self {
            NativeError::AllocationFailed => "native allocation failed",
            NativeError::Overflow => "arithmetic overflow",
            NativeError::InvalidArgument => "invalid argument",
            NativeError::CapacityExceeded => "capacity exceeded",
            NativeError::NativeInvariantViolation => "native invariant violation",
        }
    }
}

/// The meaning of a status code: `0` success, `-1` to `-4` the errors in
/// declaration order, anything else an invariant violation.
pub open spec fn status_meaning(status: i32) -> Result<(), NativeError> {
    if status == 0 {
        Ok(())
    } else if status == -1 {
        Err(NativeError::AllocationFailed)
    } else if status == -2 {
        Err(NativeError::Overflow)
    } else if status == -3 {
        Err(NativeError::InvalidArgument)
    } else if status == -4 {
        Err(NativeError::CapacityExceeded)
    } else {
        Err(NativeError::NativeInvariantViolation)
    }
}

/// Maps a status code to a result (see `status_meaning`).
pub fn status_to_result(status: i32) -> (r: Result<(), NativeError>)
    ensures
        r == status_meaning(status),
{
    if status == 0 {
        Ok(())
    } else if status == -1 {
        Err(NativeError::AllocationFailed)
    } else if status == -2 {
        Err(NativeError::Overflow)
    } else if status == -3 {
        Err(NativeError::InvalidArgument)
    } else if status == -4 {
        Err(NativeError::CapacityExceeded)
    } else {
        Err(NativeError::NativeInvariantViolation)
    }
}

/// The capacity that a buffer of capacity `cap` grows to in order to hold
/// `required` bytes: unchanged when it suffices, else doubled (from
/// `required` itself when empty) until it suffices; `None` when doubling
/// would leave `usize`.
pub open spec fn grown_capacity(cap: nat, required: nat) -> Option<nat>
    decreases (if cap >= required { 0 } else { required - cap }),
{
    if cap >= required {
        Some(cap)
    } else if cap == 0 {
        Some(required)
    } else if cap > usize::MAX / 2 {
        None
    } else {
        grown_capacity(2 * cap, required)
    }
}

/// A grown capacity holds what was required.
proof fn lemma_grown_capacity(cap: nat, required: nat)
    ensures
        grown_capacity(cap, required) matches Some(c) ==> c >= required && c >= cap,
    decreases (if cap >= required { 0 } else { required - cap }),
{
    if cap < required && cap != 0 && cap <= usize::MAX / 2 {
        lemma_grown_capacity(2 * cap, required);
    }
}

/// A growable byte buffer that accounts for its reserved capacity.
pub struct NativeBuffer {
    data: Vec<u8>,
    cap: usize,
}

impl NativeBuffer {
    /// The buffer's contents.
    pub closed spec fn contents(&self) -> Seq<u8> {
        self.data@
    }

    /// The buffer's reserved capacity.
    pub closed spec fn reserved(&self) -> nat {
        self.cap as nat
    }

    /// Contents never exceed the reserved capacity.
    pub closed spec fn wf(&self) -> bool {
        self.data@.len() <= self.cap
    }

    /// An empty buffer with the given reserved capacity.
    pub fn with_capacity(capacity: usize) -> (r: Result<NativeBuffer, NativeError>)
        ensures
            r matches Ok(b) && b.wf() && b.contents() == Seq::<u8>::empty() && b.reserved() == capacity,
    {
        Ok(NativeBuffer { data: Vec::new(), cap: capacity })
    }

    /// Number of bytes held.
    pub fn len(&self) -> (r: usize)
        ensures
            r == self.contents().len(),
    {
        self.data.len()
    }

    /// Whether no bytes are held.
    pub fn is_empty(&self) -> (r: bool)
        ensures
            r == (self.contents().len() == 0),
    {
        self.data.len() == 0
    }

    /// The reserved capacity.
    pub fn capacity(&self) -> (r: usize)
        ensures
            r == self.reserved(),
    {
        self.cap
    }

    /// The bytes held.
    pub fn as_slice(&self) -> (r: &[u8])
        ensures
            r@ == self.contents(),
    {
        self.data.as_slice()
    }

    /// Ensures room for `additional` more bytes, growing the capacity as
    /// `grown_capacity` says; `Overflow` when the required size does not
    /// fit in `usize`, and then nothing changes.
    pub fn reserve(&mut self, additional: usize) -> (r: Result<(), NativeError>)
        requires
            old(self).wf(),
        ensures
            final(self).wf(),
            final(self).contents() == old(self).contents(),
            ({
                let required = old(self).contents().len() + additional;
                if required > usize::MAX {
                    r == Err::<(), NativeError>(NativeError::Overflow) && final(self).reserved() == old(self).reserved()
                } else {
                    match grown_capacity(old(self).reserved(), required as nat) {
                        Some(c) => r is Ok && final(self).reserved() == c,
                        None => r == Err::<(), NativeError>(NativeError::Overflow)
                            && final(self).reserved() == old(self).reserved(),
                    }
                }
            }),
    {
        let required = match self.data.len().checked_add(additional) {
            Some(n) => n,
            None => return Err(NativeError::Overflow),
        };
        let mut c = self.cap;
        if c >= required {
            return Ok(());
        }
        if c == 0 {
            self.cap = required;
            return Ok(());
        }
        let ghost old_data = self.data@;
        while c < required
            invariant
                0 < c,
                self.data@ == old_data,
                old_data == old(self).data@,
                self.cap == old(self).cap,
                required == old(self).data@.len() + additional,
                self.data@.len() <= self.cap,
                grown_capacity(self.cap as nat, required as nat) == grown_capacity(c as nat, required as nat),
            decreases usize::MAX - c,
        {
            if c > usize::MAX / 2 {
                return Err(NativeError::Overflow);
            }
            c = c * 2;
        }
        self.cap = c;
        Ok(())
    }

    /// Appends bytes, growing the capacity first (see `reserve`).
    pub fn append(&mut self, bytes: &[u8]) -> (r: Result<(), NativeError>)
        requires
            old(self).wf(),
        ensures
            final(self).wf(),
            r is Ok ==> final(self).contents() == old(self).contents() + bytes@,
            r is Err ==> final(self).contents() == old(self).contents() && r == Err::<(), NativeError>(NativeError::Overflow),
            r is Ok <==> old(self).contents().len() + bytes@.len() <= usize::MAX
                && grown_capacity(old(self).reserved(), (old(self).contents().len() + bytes@.len()) as nat) is Some,
    {
        match self.reserve(bytes.len()) {
            Ok(()) => {},
            Err(e) => return Err(e),
        }
        proof {
            lemma_grown_capacity(old(self).cap as nat, (old(self).data@.len() + bytes@.len()) as nat);
        }
        let ghost start = self.data@;
        let mut i: usize = 0;
        while i < bytes.len()
            invariant
                i <= bytes@.len(),
                self.data@ == start + bytes@.subrange(0, i as int),
                start.len() + bytes@.len() <= self.cap,
            decreases bytes@.len() - i,
        {
            self.data.push(bytes[i]);
            i = i + 1;
            proof {
                assert(self.data@ =~= start + bytes@.subrange(0, i as int));
            }
        }
        proof {
            assert(bytes@.subrange(0, i as int) =~= bytes@);
        }
        Ok(())
    }

    /// Removes every byte, keeping the capacity.
    pub fn clear(&mut self)
        requires
            old(self).wf(),
        ensures
            final(self).wf(),
            final(self).contents() == Seq::<u8>::empty(),
            final(self).reserved() == old(self).reserved(),
    {
        self.data.clear();
    }
}

/// Calls `<[u8]>::as_ptr`: the address at which the bytes start. Nothing
/// is claimed of its value.
#[verifier::external_body]
fn start_address(bytes: &[u8]) -> usize {
    bytes.as_ptr() as usize
}

/// Borrows `v[start..end]` mutably (`IndexMut` with a range). The slice
/// is that part of the vector: what is written through it is what the
/// vector then holds there, and the rest of the vector is unchanged.
#[verifier::external_body]
fn subslice_mut(v: &mut Vec<u8>, start: usize, end: usize) -> (r: &mut [u8])
    requires
        start <= end <= old(v)@.len(),
    ensures
        r@ == old(v)@.subrange(start as int, end as int),
        final(r)@.len() == end - start,
        final(v)@.len() == old(v)@.len(),
        final(v)@ == old(v)@.subrange(0, start as int) + final(r)@ + old(v)@.subrange(end as int, old(v)@.len() as int),
{
    &mut v[start..end]
}

/// Alignments that an arena honours: powers of two.
pub open spec fn valid_alignment(align: usize) -> bool {
    align > 0 && (align & (align - 1) as usize) == 0
}

/// The offset at which an allocation aligned to `align` starts when `used`
/// bytes of an arena starting at address `base` are taken: the first offset
/// at or after `used` whose address is a multiple of `align` (`None` where
/// the address arithmetic leaves `usize`).
pub open spec fn aligned_start(base: nat, used: nat, align: nat) -> Option<nat> {
    if align == 0 || base + used + align - 1 > usize::MAX {
        None
    } else {
        Some(((((base + used + align - 1) as nat) / align) * align - base) as nat)
    }
}

/// A bump allocator over a fixed block of bytes.
pub struct Arena {
    data: Vec<u8>,
    capacity: usize,
    used: usize,
    base: usize,
}

impl Arena {
    /// Total bytes of the arena.
    pub closed spec fn capacity_spec(&self) -> usize {
        self.capacity
    }

    /// Bytes taken, alignment padding included.
    pub closed spec fn used_spec(&self) -> usize {
        self.used
    }

    /// Address at which the arena's bytes start.
    pub closed spec fn base_spec(&self) -> usize {
        self.base
    }

    /// The block holds `capacity` bytes, of which at most all are used.
    pub closed spec fn wf(&self) -> bool {
        self.data@.len() == self.capacity && self.used <= self.capacity
    }

    /// An arena of `capacity` zeroed bytes, none used.
    pub fn new(capacity: usize) -> (r: Result<Arena, NativeError>)
        ensures
            r matches Ok(a) && a.wf() && a.capacity_spec() == capacity && a.used_spec() == 0,
    {
        let data: Vec<u8> = vec![0u8; capacity];
        let base = start_address(data.as_slice());
        Ok(Arena { data, capacity, used: 0, base })
    }

    /// Total bytes of the arena.
    pub fn capacity(&self) -> (r: usize)
        ensures
            r == self.capacity_spec(),
    {
        self.capacity
    }

    /// Bytes taken, alignment padding included.
    pub fn used(&self) -> (r: usize)
        ensures
            r == self.used_spec(),
    {
        self.used
    }

    /// Bytes still free.
    pub fn remaining(&self) -> (r: usize)
        requires
            self.wf(),
        ensures
            r == self.capacity_spec() - self.used_spec(),
    {
        self.capacity - self.used
    }

    /// Makes every byte available again.
    pub fn reset(&mut self)
        requires
            old(self).wf(),
        ensures
            final(self).wf(),
            final(self).used_spec() == 0,
            final(self).capacity_spec() == old(self).capacity_spec(),
            final(self).base_spec() == old(self).base_spec(),
    {
        self.used = 0;
    }

    /// Takes `size` bytes aligned to `align`: `None` for an alignment that
    /// is not a power of two or an allocation that does not fit, and then
    /// nothing is taken.
    pub fn alloc_bytes(&mut self, size: usize, align: usize) -> (r: Option<&mut [u8]>)
        requires
            old(self).wf(),
        ensures
            final(self).wf(),
            final(self).capacity_spec() == old(self).capacity_spec(),
            final(self).base_spec() == old(self).base_spec(),
            ({
                let start = aligned_start(old(self).base_spec() as nat, old(self).used_spec() as nat, align as nat);
                if valid_alignment(align) && start is Some && start->0 + size <= old(self).capacity_spec() {
                    &&& r matches Some(bytes) && bytes@.len() == size
                    &&& start->0 >= old(self).used_spec()
                    &&& final(self).used_spec() == start->0 + size
                    &&& (old(self).base_spec() + start->0) % (align as int) == 0
                } else {
                    r is None && final(self).used_spec() == old(self).used_spec()
                }
            }),
    {
        if align == 0 || (align & (align - 1)) != 0 {
            return None;
        }
        let addr = match self.base.checked_add(self.used) {
            Some(a) => a,
            None => return None,
        };
        let bumped = match addr.checked_add(align - 1) {
            Some(b) => b,
            None => return None,
        };
        let q = bumped / align;
        proof {
            assert(q * align <= bumped) by (nonlinear_arith)
                requires
                    q == bumped / align,
                    align > 0,
            {
            }
        }
        let aligned = q * align;
        proof {
            assert(aligned >= addr) by (nonlinear_arith)
                requires
                    bumped == addr + align - 1,
                    aligned == (bumped / align) * align,
                    align > 0,
            {
            }
            assert(aligned % align == 0) by (nonlinear_arith)
                requires
                    aligned == (bumped / align) * align,
                    align > 0,
            {
            }
        }
        let start = aligned - self.base;
        let end = match start.checked_add(size) {
            Some(e) => e,
            None => return None,
        };
        if end > self.capacity {
            return None;
        }
        self.used = end;
        Some(subslice_mut(&mut self.data, start, end))
    }
}

/// A scanner's accounting: scans recorded and bytes scanned, plus a scratch
/// arena that is released between scans.
pub struct NativeScanner {
    scratch: Arena,
    bytes_scanned: u64,
    scans: u64,
}

impl NativeScanner {
    /// The scanner's scratch arena.
    pub closed spec fn scratch_spec(&self) -> Arena {
        self.scratch
    }

    /// Total bytes recorded as scanned.
    pub closed spec fn bytes_scanned_spec(&self) -> u64 {
        self.bytes_scanned
    }

    /// Number of scans recorded.
    pub closed spec fn scans_spec(&self) -> u64 {
        self.scans
    }

    /// A scanner with a scratch arena of the given capacity and no scans.
    pub fn new(scratch_capacity: usize) -> (r: Result<NativeScanner, NativeError>)
        ensures
            r matches Ok(s) && s.scratch_spec().wf() && s.scratch_spec().capacity_spec() == scratch_capacity
                && s.scratch_spec().used_spec() == 0 && s.bytes_scanned_spec() == 0 && s.scans_spec() == 0,
    {
        match Arena::new(scratch_capacity) {
            Ok(scratch) => Ok(NativeScanner { scratch, bytes_scanned: 0, scans: 0 }),
            Err(e) => Err(e),
        }
    }

    /// Capacity of the scratch arena.
    pub fn scratch_capacity(&self) -> (r: usize)
        ensures
            r == self.scratch_spec().capacity_spec(),
    {
        self.scratch.capacity()
    }

    /// Bytes of the scratch arena in use.
    pub fn scratch_used(&self) -> (r: usize)
        ensures
            r == self.scratch_spec().used_spec(),
    {
        self.scratch.used()
    }

    /// Total bytes recorded as scanned.
    pub fn bytes_scanned(&self) -> (r: u64)
        ensures
            r == self.bytes_scanned_spec(),
    {
        self.bytes_scanned
    }

    /// Number of scans recorded.
    pub fn scans(&self) -> (r: u64)
        ensures
            r == self.scans_spec(),
    {
        self.scans
    }

    /// Records one scan of `bytes` bytes; the counters saturate.
    pub fn record_scan(&mut self, bytes: usize)
        ensures
            final(self).bytes_scanned_spec() == old(self).bytes_scanned_spec().saturating_add(bytes as u64),
            final(self).scans_spec() == old(self).scans_spec().saturating_add(1),
            final(self).scratch_spec() == old(self).scratch_spec(),
    {
        self.bytes_scanned = self.bytes_scanned.saturating_add(bytes as u64);
        self.scans = self.scans.saturating_add(1);
    }

    /// Releases the scratch arena; the scan accounting is kept.
    pub fn reset(&mut self)
        requires
            old(self).scratch_spec().wf(),
        ensures
            final(self).scratch_spec().wf(),
            final(self).scratch_spec().used_spec() == 0,
            final(self).scratch_spec().capacity_spec() == old(self).scratch_spec().capacity_spec(),
            final(self).bytes_scanned_spec() == old(self).bytes_scanned_spec(),
            final(self).scans_spec() == old(self).scans_spec(),
    {
        self.scratch.reset();
    }
}

} // verus!

//! The marshalling layer between the enclave and its host: an arena of
//! memory that both sides can see, and the crossings that carry one
//! request each to the host and bring its response back.
//!
//! Nothing that the host says or writes is trusted. Payloads are copied out
//! of private memory into a region of the arena, and copied back in only
//! after the host's status and the length it declares have been checked.

use vstd::prelude::*;

verus! {

/// Why a crossing failed.
#[derive(Clone, Copy, Debug, PartialEq, Eq, Structural)]
pub enum BoundaryError {
    /// The payload does not fit into what is left of the arena.
    CapacityExceeded,
    /// The length that the host declares is not that of the region.
    UntrustedSizeMismatch,
    /// The host reported the given status, which is not zero.
    HostRejected(i32),
}

/// A region of the arena that one crossing has claimed for itself.
#[derive(Debug, PartialEq, Eq)]
pub struct SharedHandle {
    offset: usize,
    len: usize,
}

impl SharedHandle {
    /// Where the region starts in the arena.
    pub closed spec fn spec_offset(&self) -> usize {
        self.offset
    }

    /// How many bytes the region holds.
    pub closed spec fn spec_len(&self) -> usize {
        self.len
    }

    /// The index after the last byte of the region.
    pub open spec fn spec_end(&self) -> int {
        self.spec_offset() + self.spec_len()
    }

    /// The two regions have no byte in common.
    pub open spec fn disjoint(&self, other: &SharedHandle) -> bool {
        self.spec_end() <= other.spec_offset() || other.spec_end() <= self.spec_offset()
    }

    /// Where the region starts in the arena.
    #[verifier::when_used_as_spec(spec_offset)]
    pub fn offset(&self) -> (offset: usize)
        ensures
            offset == self.spec_offset(),
    {
        self.offset
    }

    /// How many bytes the region holds.
    #[verifier::when_used_as_spec(spec_len)]
    pub fn len(&self) -> (len: usize)
        ensures
            len == self.spec_len(),
    {
        self.len
    }
}

/// What is claimed of an arena, and how many of its regions are live, once
/// the region of `len` bytes at `offset` has been released. A region
/// without bytes counts for nothing. With the last live region everything
/// is free. The region that was claimed last gives its bytes back, as long
/// as what stays claimed has room for the regions that stay live.
pub open spec fn release_step(claimed: usize, live: usize, offset: usize, len: usize) -> (
    usize,
    usize,
) {
    if len == 0 || live == 0 {
        (claimed, live)
    } else if live == 1 {
        (0, 0)
    } else if offset + len == claimed && live - 1 <= offset {
        (offset, (live - 1) as usize)
    } else {
        (claimed, (live - 1) as usize)
    }
}

/// The memory that the enclave shares with its host. Regions are claimed
/// from the front, one after the other, and the arena is free again when
/// every region that holds a byte has been released.
#[derive(Debug)]
pub struct SharedArena {
    shared: Vec<u8>,
    capacity: usize,
    claimed: usize,
    live: usize,
}

impl View for SharedArena {
    type V = Seq<u8>;

    /// The bytes of the arena, as the host sees them too.
    closed spec fn view(&self) -> Seq<u8> {
        self.shared@
    }
}

impl SharedArena {
    /// The size that was agreed with the host.
    pub closed spec fn spec_capacity(&self) -> usize {
        self.capacity
    }

    /// How many bytes, from the front, belong to claimed regions.
    pub closed spec fn spec_claimed(&self) -> usize {
        self.claimed
    }

    /// How many claimed regions that hold a byte have not been released.
    pub closed spec fn spec_live(&self) -> usize {
        self.live
    }

    /// The arena has its agreed size, and the claimed part lies within it.
    pub closed spec fn wf(&self) -> bool {
        &&& self.shared@.len() == self.capacity
        &&& self.claimed <= self.capacity
        &&& self.live <= self.claimed
        &&& self.live == 0 ==> self.claimed == 0
    }

    /// A well-formed arena holds as many bytes as its capacity says.
    pub proof fn lemma_wf(&self)
        requires
            self.wf(),
        ensures
            self@.len() == self.spec_capacity(),
            self.spec_claimed() <= self.spec_capacity(),
            self.spec_live() <= self.spec_claimed(),
            self.spec_live() == 0 ==> self.spec_claimed() == 0,
    {
    }

    /// The region lies in the claimed part of the arena.
    pub open spec fn holds(&self, handle: &SharedHandle) -> bool {
        handle.spec_end() <= self.spec_claimed()
    }

    /// The bytes of a region.
    pub open spec fn region(&self, handle: &SharedHandle) -> Seq<u8> {
        self@.subrange(handle.spec_offset() as int, handle.spec_end())
    }

    /// `self` differs from `before` only inside the given range.
    pub open spec fn same_outside(&self, before: &SharedArena, start: int, end: int) -> bool {
        &&& self@.len() == before@.len()
        &&& forall|i: int| 0 <= i < self@.len() && !(start <= i < end) ==> self@[i] == before@[i]
    }

    /// An arena of `capacity` zero bytes, none of them claimed.
    pub fn new(capacity: usize) -> (arena: SharedArena)
        ensures
            arena.wf(),
            arena.spec_capacity() == capacity,
            arena.spec_claimed() == 0,
            arena.spec_live() == 0,
            arena@ == Seq::new(capacity as nat, |i: int| 0u8),
    {
        let mut shared: Vec<u8> = Vec::new();
        let mut i: usize = 0;
        while i < capacity
            invariant
                i <= capacity,
                shared@ == Seq::new(i as nat, |k: int| 0u8),
            decreases capacity - i,
        {
            shared.push(0);
            i += 1;
        }
        SharedArena { shared, capacity, claimed: 0, live: 0 }
    }

    /// The size that was agreed with the host.
    #[verifier::when_used_as_spec(spec_capacity)]
    pub fn capacity(&self) -> (capacity: usize)
        ensures
            capacity == self.spec_capacity(),
    {
        self.capacity
    }

    /// How many bytes can still be claimed.
    pub fn available(&self) -> (free: usize)
        requires
            self.wf(),
        ensures
            free == self.spec_capacity() - self.spec_claimed(),
    {
        self.capacity - self.claimed
    }

    /// The whole arena, as the host sees it.
    pub fn shared(&self) -> (bytes: &[u8])
        ensures
            bytes@ == self@,
    {
        self.shared.as_slice()
    }

    /// Claims the next `len` bytes. Fails, and changes nothing, when fewer
    /// are left.
    pub fn claim(&mut self, len: usize) -> (r: Result<SharedHandle, BoundaryError>)
        requires
            old(self).wf(),
        ensures
            final(self).wf(),
            final(self)@ == old(self)@,
            final(self).spec_capacity() == old(self).spec_capacity(),
            match r {
                Ok(handle) => {
                    &&& len <= old(self).spec_capacity() - old(self).spec_claimed()
                    &&& handle.spec_offset() == old(self).spec_claimed()
                    &&& handle.spec_len() == len
                    &&& final(self).spec_claimed() == old(self).spec_claimed() + len
                    &&& final(self).spec_live() == old(self).spec_live() + if len == 0 {
                        0int
                    } else {
                        1int
                    }
                },
                Err(e) => {
                    &&& e == BoundaryError::CapacityExceeded
                    &&& len > old(self).spec_capacity() - old(self).spec_claimed()
                    &&& final(self).spec_claimed() == old(self).spec_claimed()
                    &&& final(self).spec_live() == old(self).spec_live()
                },
            },
    {
        if len > self.capacity - self.claimed {
            return Err(BoundaryError::CapacityExceeded);
        }
        let handle = SharedHandle { offset: self.claimed, len };
        if len > 0 {
            self.claimed = self.claimed + len;
            self.live = self.live + 1;
        }
        Ok(handle)
    }

    /// What is claimed and how many regions are live once `handle` has been
    /// released.
    pub open spec fn after_release(&self, handle: &SharedHandle) -> (usize, usize) {
        release_step(
            self.spec_claimed(),
            self.spec_live(),
            handle.spec_offset(),
            handle.spec_len(),
        )
    }

    /// Gives a region back. With the last live region the whole arena is
    /// free again, and the region claimed last gives its bytes back at
    /// once. The bytes stay as they are.
    pub fn release(&mut self, handle: SharedHandle)
        requires
            old(self).wf(),
        ensures
            final(self).wf(),
            final(self)@ == old(self)@,
            final(self).spec_capacity() == old(self).spec_capacity(),
            (final(self).spec_claimed(), final(self).spec_live()) == old(self).after_release(
                &handle,
            ),
    {
        if handle.len > 0 && self.live > 0 {
            self.live = self.live - 1;
            if self.live == 0 {
                self.claimed = 0;
            } else if handle.offset <= self.claimed && handle.len == self.claimed - handle.offset
                && self.live <= handle.offset {
                self.claimed = handle.offset;
            }
        }
    }

    /// Copies `local` into a newly claimed region of the arena. Fails with
    /// `CapacityExceeded`, and changes nothing, when the arena has fewer
    /// bytes left than `local` holds. No byte outside the new region is
    /// written, so that each region claimed before keeps what it held.
    pub fn copy_out(&mut self, local: &[u8]) -> (r: Result<SharedHandle, BoundaryError>)
        requires
            old(self).wf(),
        ensures
            final(self).wf(),
            final(self).spec_capacity() == old(self).spec_capacity(),
            match r {
                Ok(handle) => {
                    &&& local@.len() <= old(self).spec_capacity() - old(self).spec_claimed()
                    &&& handle.spec_offset() == old(self).spec_claimed()
                    &&& handle.spec_len() == local@.len()
                    &&& final(self).holds(&handle)
                    &&& final(self).region(&handle) == local@
                    &&& final(self).same_outside(
                        old(self),
                        handle.spec_offset() as int,
                        handle.spec_end(),
                    )
                    &&& final(self).spec_claimed() == old(self).spec_claimed() + local@.len()
                    &&& final(self).spec_live() == old(self).spec_live() + if local@.len() == 0 {
                        0int
                    } else {
                        1int
                    }
                },
                Err(e) => {
                    &&& e == BoundaryError::CapacityExceeded
                    &&& local@.len() > old(self).spec_capacity() - old(self).spec_claimed()
                    &&& final(self)@ == old(self)@
                    &&& final(self).spec_claimed() == old(self).spec_claimed()
                    &&& final(self).spec_live() == old(self).spec_live()
                },
            },
    {
        let handle = match self.claim(local.len()) {
            Ok(handle) => handle,
            Err(e) => {
                return Err(e);
            },
        };
        let ghost before = self@;
        let offset = handle.offset;
        let len = handle.len;
        let mut i: usize = 0;
        while i < len
            invariant
                i <= len,
                len == local@.len(),
                offset + len <= self.shared@.len(),
                self.shared@.len() == before.len(),
                self.capacity == old(self).capacity,
                self.claimed == old(self).claimed + len,
                self.live == old(self).live + if len == 0 {
                    0int
                } else {
                    1int
                },
                self.live <= self.claimed,
                self.live == 0 ==> self.claimed == 0,
                self.shared@.len() == self.capacity,
                self.claimed <= self.capacity,
                forall|k: int| 0 <= k < i ==> self.shared@[offset + k] == local@[k],
                forall|k: int|
                    0 <= k < before.len() && !(offset <= k < offset + i) ==> self.shared@[k]
                        == before[k],
            decreases len - i,
        {
            self.shared[offset + i] = local[i];
            i += 1;
        }
        assert(self.region(&handle) =~= local@);
        Ok(handle)
    }

    /// Copies a region back into private memory. `expected_len` is the
    /// length that the host declares for what it left there: the copy is
    /// made only when that is the length of the region and the region lies
    /// within the arena. Otherwise the call fails with
    /// `UntrustedSizeMismatch` and hands out no byte.
    pub fn copy_in(&self, handle: &SharedHandle, expected_len: usize) -> (r: Result<
        Vec<u8>,
        BoundaryError,
    >)
        requires
            self.wf(),
        ensures
            match r {
                Ok(bytes) => {
                    &&& expected_len == handle.spec_len()
                    &&& handle.spec_end() <= self.spec_capacity()
                    &&& bytes@ == self.region(handle)
                },
                Err(e) => {
                    &&& e == BoundaryError::UntrustedSizeMismatch
                    &&& (expected_len != handle.spec_len() || handle.spec_end()
                        > self.spec_capacity())
                },
            },
    {
        if expected_len != handle.len || handle.offset > self.capacity || handle.len
            > self.capacity - handle.offset {
            return Err(BoundaryError::UntrustedSizeMismatch);
        }
        let offset = handle.offset;
        let len = handle.len;
        let mut bytes: Vec<u8> = Vec::new();
        let mut i: usize = 0;
        while i < len
            invariant
                i <= len,
                offset + len <= self.capacity,
                self.shared@.len() == self.capacity,
                bytes@ == self.shared@.subrange(offset as int, offset + i),
            decreases len - i,
        {
            bytes.push(self.shared[offset + i]);
            i += 1;
        }
        Ok(bytes)
    }

    /// What the host does to the arena: it may write any bytes anywhere in
    /// it, claimed or not. Returns whether the bytes fit; if they do not,
    /// nothing is written.
    pub fn host_store(&mut self, offset: usize, bytes: &[u8]) -> (stored: bool)
        requires
            old(self).wf(),
        ensures
            final(self).wf(),
            final(self).spec_capacity() == old(self).spec_capacity(),
            final(self).spec_claimed() == old(self).spec_claimed(),
            final(self).spec_live() == old(self).spec_live(),
            stored == (offset + bytes@.len() <= old(self).spec_capacity()),
            stored ==> final(self)@.subrange(offset as int, offset + bytes@.len()) == bytes@,
            stored ==> final(self).same_outside(old(self), offset as int, offset + bytes@.len()),
            !stored ==> final(self)@ == old(self)@,
    {
        let len = bytes.len();
        if offset > self.capacity || len > self.capacity - offset {
            return false;
        }
        let ghost before = self@;
        let mut i: usize = 0;
        while i < len
            invariant
                i <= len,
                len == bytes@.len(),
                offset + len <= self.shared@.len(),
                self.shared@.len() == before.len(),
                self.capacity == old(self).capacity,
                self.claimed == old(self).claimed,
                self.live == old(self).live,
                self.live <= self.claimed,
                self.claimed <= self.capacity,
                self.live == 0 ==> self.claimed == 0,
                self.shared@.len() == self.capacity,
                forall|k: int| 0 <= k < i ==> self.shared@[offset + k] == bytes@[k],
                forall|k: int|
                    0 <= k < before.len() && !(offset <= k < offset + i) ==> self.shared@[k]
                        == before[k],
            decreases len - i,
        {
            self.shared[offset + i] = bytes[i];
            i += 1;
        }
        assert(self@.subrange(offset as int, offset + len) =~= bytes@);
        true
    }
}

impl SharedArena {
    /// Claims the next `len` bytes and fills them with zeros, so that
    /// nothing left behind by an earlier crossing can be read from them.
    pub fn claim_zeroed(&mut self, len: usize) -> (r: Result<SharedHandle, BoundaryError>)
        requires
            old(self).wf(),
        ensures
            final(self).wf(),
            final(self).spec_capacity() == old(self).spec_capacity(),
            match r {
                Ok(handle) => {
                    &&& len <= old(self).spec_capacity() - old(self).spec_claimed()
                    &&& handle.spec_offset() == old(self).spec_claimed()
                    &&& handle.spec_len() == len
                    &&& final(self).region(&handle) == Seq::new(len as nat, |i: int| 0u8)
                    &&& final(self).same_outside(
                        old(self),
                        handle.spec_offset() as int,
                        handle.spec_end(),
                    )
                    &&& final(self).spec_claimed() == old(self).spec_claimed() + len
                    &&& final(self).spec_live() == old(self).spec_live() + if len == 0 {
                        0int
                    } else {
                        1int
                    }
                },
                Err(e) => {
                    &&& e == BoundaryError::CapacityExceeded
                    &&& len > old(self).spec_capacity() - old(self).spec_claimed()
                    &&& final(self)@ == old(self)@
                    &&& final(self).spec_claimed() == old(self).spec_claimed()
                    &&& final(self).spec_live() == old(self).spec_live()
                },
            },
    {
        let handle = match self.claim(len) {
            Ok(handle) => handle,
            Err(e) => {
                return Err(e);
            },
        };
        let ghost before = self@;
        let offset = handle.offset;
        let mut i: usize = 0;
        while i < len
            invariant
                i <= len,
                offset + len <= self.capacity,
                self.shared@.len() == before.len(),
                self.capacity == old(self).capacity,
                self.claimed == old(self).claimed + len,
                self.live == old(self).live + if len == 0 {
                    0int
                } else {
                    1int
                },
                self.live <= self.claimed,
                self.live == 0 ==> self.claimed == 0,
                self.shared@.len() == self.capacity,
                self.claimed <= self.capacity,
                forall|k: int| offset <= k < offset + i ==> self.shared@[k] == 0,
                forall|k: int|
                    0 <= k < before.len() && !(offset <= k < offset + i) ==> self.shared@[k]
                        == before[k],
            decreases len - i,
        {
            self.shared[offset + i] = 0;
            i += 1;
        }
        assert(self.region(&handle) =~= Seq::new(len as nat, |i: int| 0u8));
        Ok(handle)
    }

    /// Takes the shared bytes out of the arena for the time of a crossing.
    fn lend(&mut self) -> (shared: Vec<u8>)
        ensures
            shared@ == old(self).shared@,
            final(self).capacity == old(self).capacity,
            final(self).claimed == old(self).claimed,
            final(self).live == old(self).live,
    {
        let mut shared: Vec<u8> = Vec::new();
        core::mem::swap(&mut self.shared, &mut shared);
        shared
    }

    /// Puts the shared bytes back after a crossing. Bytes that are not as
    /// many as the arena holds cannot be its memory: they are dropped, the
    /// arena is filled with zeros, and the answer is `false`.
    fn restore(&mut self, shared: Vec<u8>) -> (intact: bool)
        requires
            old(self).claimed <= old(self).capacity,
            old(self).live <= old(self).claimed,
            old(self).live == 0 ==> old(self).claimed == 0,
        ensures
            final(self).wf(),
            final(self).capacity == old(self).capacity,
            final(self).claimed == old(self).claimed,
            final(self).live == old(self).live,
            intact == (shared@.len() == old(self).capacity),
            final(self)@ == if intact {
                shared@
            } else {
                Seq::new(old(self).capacity as nat, |i: int| 0u8)
            },
    {
        if shared.len() == self.capacity {
            self.shared = shared;
            true
        } else {
            let fresh = SharedArena::new(self.capacity);
            self.shared = fresh.shared;
            false
        }
    }
}

/// What one crossing hands to the host: the operation, and where in the
/// arena the request lies and the response is to be left.
#[derive(Clone, Copy, Debug, PartialEq, Eq, Structural)]
pub struct BoundaryRequest {
    pub op_code: u32,
    pub request_offset: usize,
    pub request_len: usize,
    pub response_offset: usize,
    pub response_len: usize,
}

/// What the host reports of one crossing: its status, zero for success,
/// and the length of the response that it says it has left.
#[derive(Clone, Copy, Debug, PartialEq, Eq, Structural)]
pub struct BoundaryResponse {
    pub status: i32,
    pub response_len: usize,
}

/// One crossing that has been handed to the host and not yet completed.
/// It owns the two regions that were claimed for it.
#[derive(Debug)]
pub struct Crossing {
    op_code: u32,
    request: SharedHandle,
    response: SharedHandle,
}

/// What a completed crossing returns, given the host's report, what the
/// arena of `capacity` bytes holds afterwards, and the region that was
/// claimed for the response. The status is looked at first; then the
/// declared length is held against the region; only then are bytes read.
pub open spec fn crossing_outcome(
    response: BoundaryResponse,
    shared: Seq<u8>,
    response_offset: int,
    response_len: int,
) -> Result<Seq<u8>, BoundaryError> {
    if response.status != 0 {
        Err(BoundaryError::HostRejected(response.status))
    } else if response.response_len != response_len || response_offset + response_len
        > shared.len() {
        Err(BoundaryError::UntrustedSizeMismatch)
    } else {
        Ok(shared.subrange(response_offset, response_offset + response_len))
    }
}

/// The result carries the bytes or the error that `outcome` names.
pub open spec fn matches_outcome(
    r: Result<Vec<u8>, BoundaryError>,
    outcome: Result<Seq<u8>, BoundaryError>,
) -> bool {
    match (r, outcome) {
        (Ok(bytes), Ok(expected)) => bytes@ == expected,
        (Err(e), Err(expected)) => e == expected,
        _ => false,
    }
}

impl Crossing {
    /// What the crossing hands to the host.
    pub closed spec fn spec_request(&self) -> BoundaryRequest {
        BoundaryRequest {
            op_code: self.op_code,
            request_offset: self.request.offset,
            request_len: self.request.len,
            response_offset: self.response.offset,
            response_len: self.response.len,
        }
    }

    /// What is claimed of an arena, and how many of its regions are live,
    /// once the two regions of this crossing have been released: first
    /// that of the response, then that of the request.
    pub open spec fn released(&self, arena: &SharedArena) -> (usize, usize) {
        let sent = self.spec_request();
        let (claimed, live) = release_step(
            arena.spec_claimed(),
            arena.spec_live(),
            sent.response_offset,
            sent.response_len,
        );
        release_step(claimed, live, sent.request_offset, sent.request_len)
    }

    /// Starts a crossing: claims a region for the request and copies it
    /// out, and claims a zeroed region of `response_len` bytes for the
    /// response. Fails with `CapacityExceeded`, and changes nothing, when
    /// the arena has fewer bytes left than the two regions need. Nothing
    /// outside the two new regions is written.
    pub fn begin(arena: &mut SharedArena, op_code: u32, request: &[u8], response_len: usize) -> (r:
        Result<Crossing, BoundaryError>)
        requires
            old(arena).wf(),
        ensures
            final(arena).wf(),
            final(arena).spec_capacity() == old(arena).spec_capacity(),
            match r {
                Ok(crossing) => {
                    let sent = crossing.spec_request();
                    &&& request@.len() + response_len <= old(arena).spec_capacity() - old(
                        arena,
                    ).spec_claimed()
                    &&& sent.op_code == op_code
                    &&& sent.request_offset == old(arena).spec_claimed()
                    &&& sent.request_len == request@.len()
                    &&& sent.response_offset == old(arena).spec_claimed() + request@.len()
                    &&& sent.response_len == response_len
                    &&& sent.response_offset + sent.response_len <= final(arena).spec_capacity()
                    &&& final(arena)@.subrange(
                        sent.request_offset as int,
                        sent.request_offset + sent.request_len,
                    ) == request@
                    &&& final(arena)@.subrange(
                        sent.response_offset as int,
                        sent.response_offset + sent.response_len,
                    ) == Seq::new(response_len as nat, |i: int| 0u8)
                    &&& final(arena).same_outside(
                        old(arena),
                        sent.request_offset as int,
                        sent.response_offset + sent.response_len,
                    )
                    &&& final(arena).spec_claimed() == old(arena).spec_claimed() + request@.len()
                        + response_len
                    &&& final(arena).spec_live() == old(arena).spec_live() + (if request@.len()
                        == 0 {
                        0int
                    } else {
                        1int
                    }) + (if response_len == 0 {
                        0int
                    } else {
                        1int
                    })
                },
                Err(e) => {
                    &&& e == BoundaryError::CapacityExceeded
                    &&& request@.len() + response_len > old(arena).spec_capacity() - old(
                        arena,
                    ).spec_claimed()
                    &&& final(arena)@ == old(arena)@
                    &&& final(arena).spec_claimed() == old(arena).spec_claimed()
                    &&& final(arena).spec_live() == old(arena).spec_live()
                },
            },
    {
        let free = arena.available();
        if request.len() > free || response_len > free - request.len() {
            return Err(BoundaryError::CapacityExceeded);
        }
        let request_handle = match arena.copy_out(request) {
            Ok(handle) => handle,
            Err(e) => {
                return Err(e);
            },
        };
        let ghost copied = arena@;
        let response_handle = match arena.claim_zeroed(response_len) {
            Ok(handle) => handle,
            Err(e) => {
                return Err(e);
            },
        };
        proof {
            let start = request_handle.spec_offset() as int;
            let mid = request_handle.spec_end();
            assert(arena@.subrange(start, mid) =~= copied.subrange(start, mid));
        }
        Ok(Crossing { op_code, request: request_handle, response: response_handle })
    }

    /// What is handed to the host.
    #[verifier::when_used_as_spec(spec_request)]
    pub fn request(&self) -> (sent: BoundaryRequest)
        ensures
            sent == self.spec_request(),
    {
        BoundaryRequest {
            op_code: self.op_code,
            request_offset: self.request.offset,
            request_len: self.request.len,
            response_offset: self.response.offset,
            response_len: self.response.len,
        }
    }

    /// Completes the crossing with the host's report. A status other than
    /// zero gives `HostRejected` with that status, whatever else was
    /// reported. Else a declared length that is not the length of the
    /// response region gives `UntrustedSizeMismatch`. Only then is the
    /// region copied in and returned. In every case the two regions are
    /// released, and no byte of the arena is changed.
    pub fn complete(self, arena: &mut SharedArena, response: BoundaryResponse) -> (r: Result<
        Vec<u8>,
        BoundaryError,
    >)
        requires
            old(arena).wf(),
        ensures
            final(arena).wf(),
            final(arena).spec_capacity() == old(arena).spec_capacity(),
            final(arena)@ == old(arena)@,
            (final(arena).spec_claimed(), final(arena).spec_live()) == self.released(old(arena)),
            matches_outcome(
                r,
                crossing_outcome(
                    response,
                    old(arena)@,
                    self.spec_request().response_offset as int,
                    self.spec_request().response_len as int,
                ),
            ),
    {
        proof {
            arena.lemma_wf();
        }
        let Crossing { op_code: _, request, response: region } = self;
        let r = if response.status != 0 {
            Err(BoundaryError::HostRejected(response.status))
        } else {
            arena.copy_in(&region, response.response_len)
        };
        arena.release(region);
        arena.release(request);
        r
    }
}

/// Carries one request to the host and brings the response back. The
/// request is copied into the arena, `host` is called once with the record
/// of the crossing and the shared bytes, and what it reports is checked
/// as `Crossing::complete` does before any byte is copied in. When the
/// arena cannot hold the request and `response_len` bytes, the call fails
/// with `CapacityExceeded` and `host` is not called. Bytes that come back
/// from `host` in another number than the arena holds are not its memory:
/// the arena is filled with zeros and the outcome is judged on that.
pub fn invoke<H>(
    arena: &mut SharedArena,
    op_code: u32,
    request: &[u8],
    response_len: usize,
    host: H,
) -> (r: Result<Vec<u8>, BoundaryError>) where
    H: FnOnce(BoundaryRequest, Vec<u8>) -> (BoundaryResponse, Vec<u8>),

    requires
        old(arena).wf(),
        forall|sent: BoundaryRequest, shared: Vec<u8>| call_requires(host, (sent, shared)),
    ensures
        final(arena).wf(),
        final(arena).spec_capacity() == old(arena).spec_capacity(),
        final(arena).spec_claimed() == old(arena).spec_claimed(),
        final(arena).spec_live() == old(arena).spec_live(),
        request@.len() + response_len > old(arena).spec_capacity() - old(arena).spec_claimed()
            ==> r == Err::<Vec<u8>, BoundaryError>(BoundaryError::CapacityExceeded)
            && final(arena)@ == old(arena)@,
        request@.len() + response_len <= old(arena).spec_capacity() - old(arena).spec_claimed()
            ==> exists|sent: BoundaryRequest, lent: Vec<u8>, reply: BoundaryResponse, back: Vec<u8>|
            {
                &&& #[trigger] call_ensures(host, (sent, lent), (reply, back))
                &&& sent.op_code == op_code
                &&& sent.request_offset == old(arena).spec_claimed()
                &&& sent.request_len == request@.len()
                &&& sent.response_offset == old(arena).spec_claimed() + request@.len()
                &&& sent.response_len == response_len
                &&& lent@.len() == old(arena).spec_capacity()
                &&& lent@.subrange(
                    sent.request_offset as int,
                    sent.request_offset + sent.request_len,
                ) == request@
                &&& final(arena)@ == (if back@.len() == old(arena).spec_capacity() {
                    back@
                } else {
                    Seq::new(old(arena).spec_capacity() as nat, |i: int| 0u8)
                })
                &&& matches_outcome(
                    r,
                    crossing_outcome(
                        reply,
                        final(arena)@,
                        sent.response_offset as int,
                        sent.response_len as int,
                    ),
                )
            },
{
    proof {
        arena.lemma_wf();
    }
    let crossing = match Crossing::begin(arena, op_code, request, response_len) {
        Ok(crossing) => crossing,
        Err(e) => {
            return Err(e);
        },
    };
    let sent = crossing.request();
    let lent = arena.lend();
    let ghost lent_bytes = lent;
    let (reply, back) = host(sent, lent);
    let _intact = arena.restore(back);
    let r = crossing.complete(arena, reply);
    proof {
        assert(call_ensures(host, (sent, lent_bytes), (reply, back)));
    }
    r
}

/// A crossing whose host reports success and declares a length that is not
/// that of the response region, or a region that does not lie within the
/// shared memory, fails with `UntrustedSizeMismatch`: no byte of the
/// region reaches the caller.
pub proof fn lemma_size_mismatch_is_refused(
    response: BoundaryResponse,
    shared: Seq<u8>,
    response_offset: int,
    response_len: int,
)
    requires
        response.status == 0,
        response.response_len != response_len || response_offset + response_len > shared.len(),
    ensures
        crossing_outcome(response, shared, response_offset, response_len) == Err::<
            Seq<u8>,
            BoundaryError,
        >(BoundaryError::UntrustedSizeMismatch),
{
}

/// A crossing whose host reports a status other than zero fails with that
/// status, whatever length the host declares.
pub proof fn lemma_status_comes_first(
    response: BoundaryResponse,
    shared: Seq<u8>,
    response_offset: int,
    response_len: int,
)
    requires
        response.status != 0,
    ensures
        crossing_outcome(response, shared, response_offset, response_len) == Err::<
            Seq<u8>,
            BoundaryError,
        >(BoundaryError::HostRejected(response.status)),
{
}

/// Crossings are isolated from each other: a region that is claimed at the
/// end of what an arena has claimed so far shares no byte with a region
/// claimed before, and an arena that was written only inside the new
/// region still holds in the earlier one what it held before.
pub proof fn lemma_crossings_are_isolated(
    before: SharedArena,
    after: SharedArena,
    earlier: SharedHandle,
    claimed: SharedHandle,
)
    requires
        before.wf(),
        before.holds(&earlier),
        claimed.spec_offset() == before.spec_claimed(),
        after.same_outside(&before, claimed.spec_offset() as int, claimed.spec_end()),
    ensures
        earlier.disjoint(&claimed),
        after.region(&earlier) == before.region(&earlier),
{
    before.lemma_wf();
    assert(after.region(&earlier) =~= before.region(&earlier));
}

} // verus!

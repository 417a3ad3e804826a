//! Endpoint selection and read-loop decisions of the packet reader.
use vstd::prelude::*;

verus! {

/// One endpoint of the device's active configuration, as listed by its
/// descriptors.
#[derive(Debug, Clone, Copy, PartialEq, Eq, Structural)]
pub struct EndpointInfo {
    /// Number of the interface whose alternate setting lists the endpoint.
    pub interface_number: u8,
    pub address: u8,
    pub max_packet_size: u16,
}

/// The interface to claim and the buffer size to read with.
#[derive(Debug, Clone, Copy, PartialEq, Eq, Structural)]
pub struct ClaimTarget {
    pub interface_number: u8,
    pub max_packet_size: usize,
}

/// The first endpoint, in scan order, whose address is `address`.
pub open spec fn first_endpoint(eps: Seq<EndpointInfo>, address: u8) -> Option<EndpointInfo>
    decreases eps.len(),
{
    if eps.len() == 0 {
        None
    } else if eps[0].address == address {
        Some(eps[0])
    } else {
        first_endpoint(eps.drop_first(), address)
    }
}

/// What to claim for endpoint `address`: taken from the first endpoint with
/// that address, provided its packet size is not zero.
pub open spec fn claim_target(eps: Seq<EndpointInfo>, address: u8) -> Option<ClaimTarget> {
    match first_endpoint(eps, address) {
        Some(e) => if e.max_packet_size != 0 {
            Some(
                ClaimTarget {
                    interface_number: e.interface_number,
                    max_packet_size: e.max_packet_size as usize,
                },
            )
        } else {
            None
        },
        None => None,
    }
}

/// Finds what to claim for endpoint `address` among the endpoints of all
/// interfaces and alternate settings, listed in scan order; `None` when the
/// endpoint is missing or reports a zero packet size.
pub fn find_endpoint(endpoints: &Vec<EndpointInfo>, address: u8) -> (r: Option<ClaimTarget>)
    ensures
        r == claim_target(endpoints@, address),
{
    let mut i: usize = 0;
    assert(endpoints@.skip(0) =~= endpoints@);
    while i < endpoints.len()
        invariant
            i <= endpoints.len(),
            first_endpoint(endpoints@, address) == first_endpoint(endpoints@.skip(i as int), address),
        decreases endpoints.len() - i,
    {
        let e = endpoints[i];
        assert(endpoints@.skip(i as int)[0] == e);
        if e.address == address {
            if e.max_packet_size == 0 {
                return None;
            }
            return Some(
                ClaimTarget {
                    interface_number: e.interface_number,
                    max_packet_size: e.max_packet_size as usize,
                },
            );
        }
        assert(endpoints@.skip(i as int).drop_first() =~= endpoints@.skip(i + 1));
        i = i + 1;
    }
    assert(endpoints@.skip(i as int) =~= Seq::<EndpointInfo>::empty());
    None
}

/// How one interrupt read ended.
#[derive(Debug, Clone, Copy, PartialEq, Eq, Structural)]
pub enum ReadOutcome {
    /// `len` bytes arrived.
    Data { len: usize },
    /// Nothing arrived within the timeout.
    Timeout,
    /// Any other transfer error.
    Failed,
}

/// What the read loop does next.
#[derive(Debug, Clone, Copy, PartialEq, Eq, Structural)]
pub enum ReaderStep {
    /// Hand the first `len` bytes to the packet consumer, then read again.
    Deliver { len: usize },
    /// Read again.
    Continue,
    /// Leave the loop; the session ends.
    Stop,
}

/// The read loop's decision: stop once cancelled or after a transfer error,
/// read again after a timeout, deliver what arrived otherwise.
pub fn reader_step(keep_running: bool, outcome: ReadOutcome) -> (r: ReaderStep)
    ensures
        r == (if !keep_running {
            ReaderStep::Stop
        } else {
            match outcome {
                ReadOutcome::Data { len } => ReaderStep::Deliver { len },
                ReadOutcome::Timeout => ReaderStep::Continue,
                ReadOutcome::Failed => ReaderStep::Stop,
            }
        }),
{
    if !keep_running {
        return ReaderStep::Stop;
    }
    match outcome {
        ReadOutcome::Data { len } => ReaderStep::Deliver { len },
        ReadOutcome::Timeout => ReaderStep::Continue,
        ReadOutcome::Failed => ReaderStep::Stop,
    }
}

/// The packet a read produced: the buffer cut to the length received.
pub fn received_packet(buf: Vec<u8>, len: usize) -> (r: Vec<u8>)
    ensures
        r@ == (if len < buf@.len() {
            buf@.take(len as int)
        } else {
            buf@
        }),
{
    let mut buf = buf;
    buf.truncate(len);
    buf
}

} // verus!

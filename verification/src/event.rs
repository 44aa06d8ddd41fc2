//! What the servers tell epoll, and what they hear from it.
use vstd::prelude::*;

verus! {

/// How many events one wait on epoll reports at most.
pub const MAX_EVENTS: usize = 1024;

/// The timeout with which a wait on epoll lasts until an event arrives.
pub const FOREVER: i32 = -1;

/// An event has two parts, the interest flags, and the data field, which tells
/// the resources apart. A file descriptor is a unique integer for a given file,
/// so the data field holds just that.
#[derive(Clone, Copy, Debug, PartialEq, Eq, Structural)]
pub struct Event {
    pub events: u32,
    pub data: u64,
}

/// An addition to the interest list of an epoll instance.
#[derive(Clone, Copy, Debug, PartialEq, Eq, Structural)]
pub struct Registration {
    /// The descriptor of the epoll instance.
    pub epoll: i32,
    /// The descriptor to report on.
    pub fd: i32,
    /// What to report of it, and with what data.
    pub event: Event,
}

/// A removal from the interest list of an epoll instance.
#[derive(Clone, Copy, Debug, PartialEq, Eq, Structural)]
pub struct Deregistration {
    /// The descriptor of the epoll instance.
    pub epoll: i32,
    /// The descriptor that is no longer to be reported on.
    pub fd: i32,
}

/// The flag for readiness to be read, as the kernel has it.
pub open spec fn readable() -> u32 {
    0x1
}

/// The flag for readiness to be written, as the kernel has it.
pub open spec fn writable() -> u32 {
    0x4
}

/// The data that an event for the descriptor carries.
pub open spec fn data_of(fd: i32) -> u64 {
    fd as u64
}

/// The descriptor that the data of an event stands for.
pub open spec fn fd_of(data: u64) -> i32 {
    data as i32
}

/// `epoll::Events::EPOLLIN`, as bits: the lowest bit.
#[verifier::external_body]
fn epollin() -> (bits: u32)
    ensures
        bits == readable(),
{
    epoll::Events::EPOLLIN.bits()
}

/// `epoll::Events::EPOLLOUT`, as bits: the third lowest bit.
#[verifier::external_body]
fn epollout() -> (bits: u32)
    ensures
        bits == writable(),
{
    epoll::Events::EPOLLOUT.bits()
}

/// Calls `epoll::Event::new`, which keeps the flags and the data as they are.
#[verifier::external_body]
fn event_new(events: u32, data: u64) -> (event: Event)
    ensures
        event == (Event { events, data }),
{
    let event = epoll::Event::new(epoll::Events::from_bits_retain(events), data);
    Event { events: event.events, data: event.data }
}

/// The descriptor that the data of an event stands for.
pub fn descriptor(event: &Event) -> (fd: i32)
    ensures
        fd == fd_of(event.data),
{
    event.data as i32
}

/// Read interest alone: for a listener, to be notified when connections come in.
pub fn read_interest(fd: i32) -> (event: Event)
    ensures
        event == (Event { events: readable(), data: data_of(fd) }),
{
    event_new(epollin(), fd as u64)
}

/// Both read and write interest: which of the two a connection waits for depends
/// on its state.
pub fn read_write_interest(fd: i32) -> (event: Event)
    ensures
        event == (Event { events: readable() | writable(), data: data_of(fd) }),
{
    event_new(epollin() | epollout(), fd as u64)
}

/// The data of an event leads back to the descriptor that it was made for.
pub proof fn data_leads_back(fd: i32)
    ensures
        fd_of(data_of(fd)) == fd,
{
    assert((fd as u64) as i32 == fd) by (bit_vector);
}

/// No two descriptors share their data.
pub proof fn data_is_unique(fd1: i32, fd2: i32)
    ensures
        data_of(fd1) == data_of(fd2) <==> fd1 == fd2,
{
    data_leads_back(fd1);
    data_leads_back(fd2);
}

/// The data of an event is the descriptor itself, with its sign.
pub proof fn data_is_the_descriptor(fd: i32)
    ensures
        data_of(fd) as i64 == fd,
{
    assert((fd as u64) as i64 == fd) by (bit_vector);
}

/// The descriptor that the data stands for is its lower half, whatever the upper
/// half is.
pub proof fn descriptor_is_the_lower_half(data: u64)
    ensures
        fd_of(data) as u32 == data as u32,
        fd_of(data & 0xffff_ffff) == fd_of(data),
{
    assert((data as i32) as u32 == data as u32) by (bit_vector);
    assert((data & 0xffff_ffff) as i32 == data as i32) by (bit_vector);
}

/// Read interest and write interest are two bits apart from each other, and both
/// together are just those two.
pub proof fn interests_are_separate_bits()
    ensures
        readable() == 1,
        writable() == 4,
        readable() & writable() == 0,
        readable() | writable() == 5,
{
    assert(1u32 & 4u32 == 0) by (bit_vector);
    assert(1u32 | 4u32 == 5) by (bit_vector);
}

/// A wait on epoll has room for 1024 events, and its timeout is negative, which is to
/// wait for as long as it takes.
pub proof fn waits_last_until_an_event()
    ensures
        MAX_EVENTS == 1024,
        FOREVER == -1,
        FOREVER < 0,
{
}

} // verus!

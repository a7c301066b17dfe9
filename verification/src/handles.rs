//! Values that own no heap memory: handles, keys, dates and times.
//!
//! A socket or a time zone may stand for a resource of the system, but that
//! resource is not heap memory of the value. Each of these types reports
//! zero, whatever the value holds.
use crate::capability::DeepSizeOf;
use crate::context::Context;
use crate::model::{Alloc, Heap, Tally};
use vstd::prelude::*;

verus! {

/// `chrono::NaiveDate`, carried as it is: nothing of its inside is known here.
#[verifier::external_type_specification]
#[verifier::external_body]
pub struct ExNaiveDate(chrono::NaiveDate);

/// `chrono::NaiveTime`, carried as it is: nothing of its inside is known here.
#[verifier::external_type_specification]
#[verifier::external_body]
pub struct ExNaiveTime(chrono::NaiveTime);

/// `chrono::NaiveDateTime`, carried as it is: nothing of its inside is known here.
#[verifier::external_type_specification]
#[verifier::external_body]
pub struct ExNaiveDateTime(chrono::NaiveDateTime);

/// `chrono::IsoWeek`, carried as it is: nothing of its inside is known here.
#[verifier::external_type_specification]
#[verifier::external_body]
pub struct ExIsoWeek(chrono::IsoWeek);

/// `chrono::TimeDelta`, carried as it is: nothing of its inside is known here.
#[verifier::external_type_specification]
#[verifier::external_body]
pub struct ExTimeDelta(chrono::TimeDelta);

/// `chrono::Month`, carried as it is: nothing of its inside is known here.
#[verifier::external_type_specification]
#[verifier::external_body]
pub struct ExMonth(chrono::Month);

/// `chrono::Weekday`, carried as it is: nothing of its inside is known here.
#[verifier::external_type_specification]
#[verifier::external_body]
pub struct ExWeekday(chrono::Weekday);

/// `chrono::FixedOffset`, carried as it is: nothing of its inside is known here.
#[verifier::external_type_specification]
#[verifier::external_body]
pub struct ExFixedOffset(chrono::FixedOffset);

/// `chrono::Local`, carried as it is: nothing of its inside is known here.
#[verifier::external_type_specification]
#[verifier::external_body]
pub struct ExLocal(chrono::Local);

/// `chrono::Utc`, carried as it is: nothing of its inside is known here.
#[verifier::external_type_specification]
#[verifier::external_body]
pub struct ExUtc(chrono::Utc);

/// `tokio::net::TcpListener`, carried as it is: nothing of its inside is known here.
#[verifier::external_type_specification]
#[verifier::external_body]
pub struct ExTcpListener(tokio::net::TcpListener);

/// `tokio::net::TcpStream`, carried as it is: nothing of its inside is known here.
#[verifier::external_type_specification]
#[verifier::external_body]
pub struct ExTcpStream(tokio::net::TcpStream);

/// `tokio::net::UdpSocket`, carried as it is: nothing of its inside is known here.
#[verifier::external_type_specification]
#[verifier::external_body]
pub struct ExUdpSocket(tokio::net::UdpSocket);

/// `tokio::net::UnixDatagram`, carried as it is: nothing of its inside is known here.
#[verifier::external_type_specification]
#[verifier::external_body]
pub struct ExUnixDatagram(tokio::net::UnixDatagram);

/// `tokio::net::UnixListener`, carried as it is: nothing of its inside is known here.
#[verifier::external_type_specification]
#[verifier::external_body]
pub struct ExUnixListener(tokio::net::UnixListener);

/// `tokio::net::UnixStream`, carried as it is: nothing of its inside is known here.
#[verifier::external_type_specification]
#[verifier::external_body]
pub struct ExUnixStream(tokio::net::UnixStream);

/// `slotmap::KeyData`, carried as it is: nothing of its inside is known here.
#[verifier::external_type_specification]
#[verifier::external_body]
pub struct ExKeyData(slotmap::KeyData);

/// `slotmap::DefaultKey`, carried as it is: nothing of its inside is known here.
#[verifier::external_type_specification]
#[verifier::external_body]
pub struct ExDefaultKey(slotmap::DefaultKey);

/// `serde_json::Number`, carried as it is: nothing of its inside is known here.
#[verifier::external_type_specification]
#[verifier::external_body]
pub struct ExNumber(serde_json::Number);

/// `arrayvec::ArrayString`, carried as it is: nothing of its inside is known here.
#[verifier::external_type_specification]
#[verifier::external_body]
pub struct ExArrayString<const CAP: usize>(arrayvec::ArrayString<CAP>);

/// The children of a value that owns no heap memory: nothing is charged
/// and nothing is counted.
pub fn no_children(context: &mut Context) -> (bytes: usize)
    ensures
        bytes == 0,
        final(context)@ == old(context)@,
        final(context)@ == old(context)@.union(Tally::zero().counted),
{
    assert(context@ =~= context@.union(Set::empty()));
    0
}

/// A calendar date.
impl DeepSizeOf for chrono::NaiveDate {
    open spec fn measurable(&self) -> bool {
        true
    }

    open spec fn measures(&self, heap: Seq<Alloc>, visited: Set<usize>, tally: Tally) -> bool {
        tally == Tally::zero()
    }

    fn deep_size_of_children(&self, heap: &Heap, context: &mut Context) -> (bytes: usize) {
        let bytes = no_children(context);
        assert(self.measures(heap@, old(context)@, Tally::zero()));
        bytes
    }
}

/// A time of day.
impl DeepSizeOf for chrono::NaiveTime {
    open spec fn measurable(&self) -> bool {
        true
    }

    open spec fn measures(&self, heap: Seq<Alloc>, visited: Set<usize>, tally: Tally) -> bool {
        tally == Tally::zero()
    }

    fn deep_size_of_children(&self, heap: &Heap, context: &mut Context) -> (bytes: usize) {
        let bytes = no_children(context);
        assert(self.measures(heap@, old(context)@, Tally::zero()));
        bytes
    }
}

/// A calendar date with a time of day.
impl DeepSizeOf for chrono::NaiveDateTime {
    open spec fn measurable(&self) -> bool {
        true
    }

    open spec fn measures(&self, heap: Seq<Alloc>, visited: Set<usize>, tally: Tally) -> bool {
        tally == Tally::zero()
    }

    fn deep_size_of_children(&self, heap: &Heap, context: &mut Context) -> (bytes: usize) {
        let bytes = no_children(context);
        assert(self.measures(heap@, old(context)@, Tally::zero()));
        bytes
    }
}

/// A week of the ISO calendar.
impl DeepSizeOf for chrono::IsoWeek {
    open spec fn measurable(&self) -> bool {
        true
    }

    open spec fn measures(&self, heap: Seq<Alloc>, visited: Set<usize>, tally: Tally) -> bool {
        tally == Tally::zero()
    }

    fn deep_size_of_children(&self, heap: &Heap, context: &mut Context) -> (bytes: usize) {
        let bytes = no_children(context);
        assert(self.measures(heap@, old(context)@, Tally::zero()));
        bytes
    }
}

/// A span of time.
impl DeepSizeOf for chrono::TimeDelta {
    open spec fn measurable(&self) -> bool {
        true
    }

    open spec fn measures(&self, heap: Seq<Alloc>, visited: Set<usize>, tally: Tally) -> bool {
        tally == Tally::zero()
    }

    fn deep_size_of_children(&self, heap: &Heap, context: &mut Context) -> (bytes: usize) {
        let bytes = no_children(context);
        assert(self.measures(heap@, old(context)@, Tally::zero()));
        bytes
    }
}

/// A month of the year.
impl DeepSizeOf for chrono::Month {
    open spec fn measurable(&self) -> bool {
        true
    }

    open spec fn measures(&self, heap: Seq<Alloc>, visited: Set<usize>, tally: Tally) -> bool {
        tally == Tally::zero()
    }

    fn deep_size_of_children(&self, heap: &Heap, context: &mut Context) -> (bytes: usize) {
        let bytes = no_children(context);
        assert(self.measures(heap@, old(context)@, Tally::zero()));
        bytes
    }
}

/// A day of the week.
impl DeepSizeOf for chrono::Weekday {
    open spec fn measurable(&self) -> bool {
        true
    }

    open spec fn measures(&self, heap: Seq<Alloc>, visited: Set<usize>, tally: Tally) -> bool {
        tally == Tally::zero()
    }

    fn deep_size_of_children(&self, heap: &Heap, context: &mut Context) -> (bytes: usize) {
        let bytes = no_children(context);
        assert(self.measures(heap@, old(context)@, Tally::zero()));
        bytes
    }
}

/// A fixed offset from universal time.
impl DeepSizeOf for chrono::FixedOffset {
    open spec fn measurable(&self) -> bool {
        true
    }

    open spec fn measures(&self, heap: Seq<Alloc>, visited: Set<usize>, tally: Tally) -> bool {
        tally == Tally::zero()
    }

    fn deep_size_of_children(&self, heap: &Heap, context: &mut Context) -> (bytes: usize) {
        let bytes = no_children(context);
        assert(self.measures(heap@, old(context)@, Tally::zero()));
        bytes
    }
}

/// The local time zone.
impl DeepSizeOf for chrono::Local {
    open spec fn measurable(&self) -> bool {
        true
    }

    open spec fn measures(&self, heap: Seq<Alloc>, visited: Set<usize>, tally: Tally) -> bool {
        tally == Tally::zero()
    }

    fn deep_size_of_children(&self, heap: &Heap, context: &mut Context) -> (bytes: usize) {
        let bytes = no_children(context);
        assert(self.measures(heap@, old(context)@, Tally::zero()));
        bytes
    }
}

/// Universal time.
impl DeepSizeOf for chrono::Utc {
    open spec fn measurable(&self) -> bool {
        true
    }

    open spec fn measures(&self, heap: Seq<Alloc>, visited: Set<usize>, tally: Tally) -> bool {
        tally == Tally::zero()
    }

    fn deep_size_of_children(&self, heap: &Heap, context: &mut Context) -> (bytes: usize) {
        let bytes = no_children(context);
        assert(self.measures(heap@, old(context)@, Tally::zero()));
        bytes
    }
}

/// A listening TCP socket.
impl DeepSizeOf for tokio::net::TcpListener {
    open spec fn measurable(&self) -> bool {
        true
    }

    open spec fn measures(&self, heap: Seq<Alloc>, visited: Set<usize>, tally: Tally) -> bool {
        tally == Tally::zero()
    }

    fn deep_size_of_children(&self, heap: &Heap, context: &mut Context) -> (bytes: usize) {
        let bytes = no_children(context);
        assert(self.measures(heap@, old(context)@, Tally::zero()));
        bytes
    }
}

/// A TCP connection.
impl DeepSizeOf for tokio::net::TcpStream {
    open spec fn measurable(&self) -> bool {
        true
    }

    open spec fn measures(&self, heap: Seq<Alloc>, visited: Set<usize>, tally: Tally) -> bool {
        tally == Tally::zero()
    }

    fn deep_size_of_children(&self, heap: &Heap, context: &mut Context) -> (bytes: usize) {
        let bytes = no_children(context);
        assert(self.measures(heap@, old(context)@, Tally::zero()));
        bytes
    }
}

/// A UDP socket.
impl DeepSizeOf for tokio::net::UdpSocket {
    open spec fn measurable(&self) -> bool {
        true
    }

    open spec fn measures(&self, heap: Seq<Alloc>, visited: Set<usize>, tally: Tally) -> bool {
        tally == Tally::zero()
    }

    fn deep_size_of_children(&self, heap: &Heap, context: &mut Context) -> (bytes: usize) {
        let bytes = no_children(context);
        assert(self.measures(heap@, old(context)@, Tally::zero()));
        bytes
    }
}

/// A Unix datagram socket.
impl DeepSizeOf for tokio::net::UnixDatagram {
    open spec fn measurable(&self) -> bool {
        true
    }

    open spec fn measures(&self, heap: Seq<Alloc>, visited: Set<usize>, tally: Tally) -> bool {
        tally == Tally::zero()
    }

    fn deep_size_of_children(&self, heap: &Heap, context: &mut Context) -> (bytes: usize) {
        let bytes = no_children(context);
        assert(self.measures(heap@, old(context)@, Tally::zero()));
        bytes
    }
}

/// A listening Unix socket.
impl DeepSizeOf for tokio::net::UnixListener {
    open spec fn measurable(&self) -> bool {
        true
    }

    open spec fn measures(&self, heap: Seq<Alloc>, visited: Set<usize>, tally: Tally) -> bool {
        tally == Tally::zero()
    }

    fn deep_size_of_children(&self, heap: &Heap, context: &mut Context) -> (bytes: usize) {
        let bytes = no_children(context);
        assert(self.measures(heap@, old(context)@, Tally::zero()));
        bytes
    }
}

/// A Unix stream connection.
impl DeepSizeOf for tokio::net::UnixStream {
    open spec fn measurable(&self) -> bool {
        true
    }

    open spec fn measures(&self, heap: Seq<Alloc>, visited: Set<usize>, tally: Tally) -> bool {
        tally == Tally::zero()
    }

    fn deep_size_of_children(&self, heap: &Heap, context: &mut Context) -> (bytes: usize) {
        let bytes = no_children(context);
        assert(self.measures(heap@, old(context)@, Tally::zero()));
        bytes
    }
}

/// The index and version behind a slot map key.
impl DeepSizeOf for slotmap::KeyData {
    open spec fn measurable(&self) -> bool {
        true
    }

    open spec fn measures(&self, heap: Seq<Alloc>, visited: Set<usize>, tally: Tally) -> bool {
        tally == Tally::zero()
    }

    fn deep_size_of_children(&self, heap: &Heap, context: &mut Context) -> (bytes: usize) {
        let bytes = no_children(context);
        assert(self.measures(heap@, old(context)@, Tally::zero()));
        bytes
    }
}

/// A slot map key.
impl DeepSizeOf for slotmap::DefaultKey {
    open spec fn measurable(&self) -> bool {
        true
    }

    open spec fn measures(&self, heap: Seq<Alloc>, visited: Set<usize>, tally: Tally) -> bool {
        tally == Tally::zero()
    }

    fn deep_size_of_children(&self, heap: &Heap, context: &mut Context) -> (bytes: usize) {
        let bytes = no_children(context);
        assert(self.measures(heap@, old(context)@, Tally::zero()));
        bytes
    }
}

/// A JSON number.
impl DeepSizeOf for serde_json::Number {
    open spec fn measurable(&self) -> bool {
        true
    }

    open spec fn measures(&self, heap: Seq<Alloc>, visited: Set<usize>, tally: Tally) -> bool {
        tally == Tally::zero()
    }

    fn deep_size_of_children(&self, heap: &Heap, context: &mut Context) -> (bytes: usize) {
        let bytes = no_children(context);
        assert(self.measures(heap@, old(context)@, Tally::zero()));
        bytes
    }
}

/// A text of fixed capacity, stored inside the value.
impl<const CAP: usize> DeepSizeOf for arrayvec::ArrayString<CAP> {
    open spec fn measurable(&self) -> bool {
        true
    }

    open spec fn measures(&self, heap: Seq<Alloc>, visited: Set<usize>, tally: Tally) -> bool {
        tally == Tally::zero()
    }

    fn deep_size_of_children(&self, heap: &Heap, context: &mut Context) -> (bytes: usize) {
        let bytes = no_children(context);
        assert(self.measures(heap@, old(context)@, Tally::zero()));
        bytes
    }
}

} // verus!

//! Port descriptions of graph elements, and the end-of-stream bookkeeping
//! the running instances of one node share.
use crate::datatype::DataType;
use crate::text::str_eq;
use vstd::prelude::*;

verus! {

/// One input or output port of an element kind.
#[derive(Clone, Copy, Debug)]
pub struct PortSchema {
    pub name: &'static str,
    pub dtype: Option<DataType>,
    /// For input ports, whether exactly one incoming connection is required.
    /// This flag is ignored for output ports.
    pub required: bool,
}

/// `i` is the first port named `name`.
pub open spec fn first_port_named(ports: Seq<PortSchema>, name: Seq<char>, i: int) -> bool {
    &&& 0 <= i < ports.len()
    &&& ports[i].name@ == name
    &&& forall|j: int| 0 <= j < i ==> (#[trigger] ports[j]).name@ != name
}

/// The first port called `name`.
pub fn find_port<'a>(ports: &'a [PortSchema], name: &str) -> (r: Option<&'a PortSchema>)
    ensures
        r matches Some(p) ==> exists|i: int| #[trigger] first_port_named(ports@, name@, i) && *p == ports@[i],
        r is None ==> forall|j: int| 0 <= j < ports@.len() ==> (#[trigger] ports@[j]).name@ != name@,
{
    let mut i: usize = 0;
    while i < ports.len()
        invariant
            i <= ports@.len(),
            forall|j: int| 0 <= j < i ==> (#[trigger] ports@[j]).name@ != name@,
        decreases ports@.len() - i,
    {
        if str_eq(ports[i].name, name) {
            assert(first_port_named(ports@, name@, i as int));
            return Some(&ports[i]);
        }
        i += 1;
    }
    None
}

/// The end-of-stream bookkeeping the instances of one node share: whether
/// an end-of-stream marker arrived, how many instances have finished, and
/// how many there are.
#[derive(Clone, Copy, Debug, PartialEq, Eq, Structural)]
pub struct EosState {
    pub seen: bool,
    pub broadcasts: usize,
    pub instances: usize,
}

/// What one attempt to receive on an input port came back with.
#[derive(Clone, Copy, Debug, PartialEq, Eq, Structural)]
pub enum Received {
    /// A packet; `eos` when it is the end-of-stream marker.
    Packet { eos: bool },
    /// Nothing within the wait.
    TimedOut,
    /// The sending side is gone.
    Disconnected,
}

/// What an instance makes of a receive attempt.
#[derive(Clone, Copy, Debug, PartialEq, Eq, Structural)]
pub enum Delivery {
    /// Hand the packet received to the element.
    Packet,
    /// Hand the element an end-of-stream marker: a sibling instance saw the
    /// stream end.
    EndOfStream,
    /// Nothing to hand over yet.
    Nothing,
    /// The port failed: its sender is gone before the stream ended.
    Failed,
}

impl EosState {
    /// The shared state of a node running `instances` instances.
    pub fn new(instances: usize) -> (r: Self)
        ensures
            r == (EosState { seen: false, broadcasts: 0, instances }),
    {
        EosState { seen: false, broadcasts: 0, instances }
    }

    /// Takes in a receive attempt: an end-of-stream marker is noted for all
    /// instances; once one was noted, a wait that finds nothing, or a gone
    /// sender, ends this instance's stream too.
    pub fn on_receive(&mut self, received: Received) -> (d: Delivery)
        ensures
            final(self).broadcasts == old(self).broadcasts,
            final(self).instances == old(self).instances,
            final(self).seen == (old(self).seen || received == (Received::Packet { eos: true })),
            d == match received {
                Received::Packet { .. } => Delivery::Packet,
                Received::TimedOut => if old(self).seen {
                    Delivery::EndOfStream
                } else {
                    Delivery::Nothing
                },
                Received::Disconnected => if old(self).seen {
                    Delivery::EndOfStream
                } else {
                    Delivery::Failed
                },
            },
    {
        match received {
            Received::Packet { eos } => {
                if eos {
                    self.seen = true;
                }
                Delivery::Packet
            },
            Received::TimedOut => if self.seen {
                Delivery::EndOfStream
            } else {
                Delivery::Nothing
            },
            Received::Disconnected => if self.seen {
                Delivery::EndOfStream
            } else {
                Delivery::Failed
            },
        }
    }

    /// An instance finished its stream; whether it is the last one, which
    /// forwards the end-of-stream marker downstream.
    pub fn on_broadcast(&mut self) -> (forward: bool)
        requires
            old(self).broadcasts < usize::MAX,
        ensures
            final(self).seen == old(self).seen,
            final(self).instances == old(self).instances,
            final(self).broadcasts == old(self).broadcasts + 1,
            forward == (final(self).broadcasts == old(self).instances),
    {
        self.broadcasts = self.broadcasts + 1;
        self.broadcasts == self.instances
    }
}

} // verus!

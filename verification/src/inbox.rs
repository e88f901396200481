//! Where packets from the network wait for the local actors.
use vstd::prelude::*;
use vstd::slice::slice_to_vec;

verus! {

/// The queue of one actor type: the raw messages that arrived for it, oldest
/// first. Each holds the type id of the message and the encoded packet.
#[derive(Clone, Debug)]
pub struct Inbox {
    pub packets: Vec<Vec<u8>>,
}

impl View for Inbox {
    type V = Seq<Seq<u8>>;

    open spec fn view(&self) -> Seq<Seq<u8>> {
        self.packets@.map_values(|p: Vec<u8>| p@)
    }
}

impl Inbox {
    /// An inbox in which nothing waits.
    pub fn new() -> (inbox: Inbox)
        ensures
            inbox@ == Seq::<Seq<u8>>::empty(),
    {
        let inbox = Inbox { packets: Vec::new() };
        assert(inbox@ =~= Seq::<Seq<u8>>::empty());
        inbox
    }

    /// Queues a copy of the raw message `data` behind all that wait already.
    pub fn put_raw(&mut self, data: &[u8])
        ensures
            final(self)@ == old(self)@.push(data@),
    {
        self.packets.push(slice_to_vec(data));
        assert(self@ =~= old(self)@.push(data@));
    }

    /// How many messages wait.
    pub fn len(&self) -> (n: usize)
        ensures
            n == self@.len(),
    {
        self.packets.len()
    }
}

/// What a table of inboxes holds, to the protocol: for each actor type, the
/// messages that wait for it, oldest first, or `None` where the type has no
/// inbox.
pub type InboxesView = Seq<Option<Seq<Seq<u8>>>>;

/// The view of the table `inboxes`.
pub open spec fn inboxes_view(inboxes: Seq<Option<Inbox>>) -> InboxesView {
    inboxes.map_values(
        |slot: Option<Inbox>|
            match slot {
                Some(inbox) => Some(inbox@),
                None => None,
            },
    )
}

} // verus!

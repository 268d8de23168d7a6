//! Message identifiers and messages.

use vstd::prelude::*;

verus! {

/// Number of bytes of a message identifier.
pub const MESSAGE_ID_LENGTH: usize = 32;

/// The content hash that names a message; the key of a node of the graph.
#[derive(Clone, Copy, Debug, Hash)]
pub struct MessageId {
    bytes: [u8; 32],
}

impl View for MessageId {
    type V = Seq<u8>;

    closed spec fn view(&self) -> Seq<u8> {
        self.bytes@
    }
}

impl MessageId {
    /// Wraps the bytes of a hash.
    pub fn new(bytes: [u8; 32]) -> (id: Self)
        ensures
            id@ == bytes@,
    {
        MessageId { bytes }
    }

    /// The bytes of the hash.
    pub fn as_bytes(&self) -> (bytes: &[u8; 32])
        ensures
            bytes@ == self@,
    {
        &self.bytes
    }

    /// An identifier has [`MESSAGE_ID_LENGTH`] bytes, and is known by them.
    pub proof fn lemma_view(a: MessageId, b: MessageId)
        ensures
            a@.len() == 32,
            a@ == b@ ==> a == b,
    {
        if a@ == b@ {
            assert(a.bytes =~= b.bytes);
        }
    }

    /// The number that the first eight bytes make, the first being the least
    /// significant: the shelf on which an index looks for the identifier.
    pub closed spec fn shelf(&self) -> u64 {
        (self.bytes@[0] as int + self.bytes@[1] as int * 0x100 + self.bytes@[2] as int * 0x1_0000
            + self.bytes@[3] as int * 0x100_0000 + self.bytes@[4] as int * 0x1_0000_0000
            + self.bytes@[5] as int * 0x100_0000_0000 + self.bytes@[6] as int
            * 0x1_0000_0000_0000 + self.bytes@[7] as int * 0x100_0000_0000_0000) as u64
    }

    /// The shelf on which an index looks for the identifier.
    pub fn on_shelf(&self) -> (k: u64)
        ensures
            k == self.shelf(),
    {
        let b0 = self.bytes[0] as u64;
        let b1 = self.bytes[1] as u64;
        let b2 = self.bytes[2] as u64;
        let b3 = self.bytes[3] as u64;
        let b4 = self.bytes[4] as u64;
        let b5 = self.bytes[5] as u64;
        let b6 = self.bytes[6] as u64;
        let b7 = self.bytes[7] as u64;
        b0 + b1 * 0x100 + b2 * 0x1_0000 + b3 * 0x100_0000 + b4 * 0x1_0000_0000 + b5
            * 0x100_0000_0000 + b6 * 0x1_0000_0000_0000 + b7 * 0x100_0000_0000_0000
    }

}

impl PartialEq for MessageId {
    fn eq(&self, other: &MessageId) -> (b: bool) {
        let mut i: usize = 0;
        while i < 32
            invariant
                i <= 32,
                forall|j: int| 0 <= j < i ==> self.bytes@[j] == other.bytes@[j],
            decreases 32 - i,
        {
            if self.bytes[i] != other.bytes[i] {
                return false;
            }
            i += 1;
        }
        assert(self.bytes =~= other.bytes);
        true
    }
}

impl Eq for MessageId {

}

impl vstd::std_specs::cmp::PartialEqSpecImpl for MessageId {
    open spec fn obeys_eq_spec() -> bool {
        true
    }

    open spec fn eq_spec(&self, other: &MessageId) -> bool {
        *self == *other
    }
}

/// Largest number of parents that a message may name.
pub const MESSAGE_PARENTS_MAX: usize = 8;

/// Why a message could not be built.
#[derive(Clone, Copy, Debug, PartialEq, Eq)]
pub enum MessageError {
    /// More parents were named than [`MESSAGE_PARENTS_MAX`]; holds their number.
    TooManyParents(usize),
}

/// An immutable unit of data that names the messages it is attached to.
#[derive(Debug, PartialEq, Eq)]
pub struct Message {
    parents: Vec<MessageId>,
    payload: Vec<u8>,
}

/// What a [`Message`] holds.
pub struct MessageView {
    /// The parents, in the order in which the message names them.
    pub parents: Seq<MessageId>,
    /// The content, which the graph never reads.
    pub payload: Seq<u8>,
}

impl View for Message {
    type V = MessageView;

    closed spec fn view(&self) -> MessageView {
        MessageView { parents: self.parents@, payload: self.payload@ }
    }
}

impl Clone for Message {
    fn clone(&self) -> (copy: Self)
        ensures
            copy@ == self@,
    {
        let mut parents: Vec<MessageId> = Vec::new();
        let mut i: usize = 0;
        while i < self.parents.len()
            invariant
                i <= self.parents.len(),
                parents@ == self.parents@.take(i as int),
            decreases self.parents.len() - i,
        {
            parents.push(self.parents[i]);
            i += 1;
            assert(parents@ =~= self.parents@.take(i as int));
        }
        assert(parents@ =~= self.parents@);
        let payload = self.payload.clone();
        assert(payload@ =~= self.payload@);
        Message { parents, payload }
    }
}

impl Message {
    /// Builds a message from its parents and its content.
    pub fn new(parents: Vec<MessageId>, payload: Vec<u8>) -> (r: Result<Message, MessageError>)
        ensures
            parents@.len() <= MESSAGE_PARENTS_MAX ==> (r matches Ok(m) && m@ == (MessageView {
                parents: parents@,
                payload: payload@,
            })),
            parents@.len() > MESSAGE_PARENTS_MAX ==> r == Err::<Message, MessageError>(
                MessageError::TooManyParents(parents@.len() as usize),
            ),
    {
        if parents.len() > MESSAGE_PARENTS_MAX {
            return Err(MessageError::TooManyParents(parents.len()));
        }
        Ok(Message { parents, payload })
    }

    /// A message without parents or content.
    pub fn genesis() -> (m: Message)
        ensures
            m@ == (MessageView { parents: Seq::empty(), payload: Seq::empty() }),
    {
        Message { parents: Vec::new(), payload: Vec::new() }
    }

    /// The parents, in the order in which the message names them.
    pub fn parents(&self) -> (parents: &Vec<MessageId>)
        ensures
            parents@ == self@.parents,
    {
        &self.parents
    }

    /// The content of the message.
    pub fn payload(&self) -> (payload: &Vec<u8>)
        ensures
            payload@ == self@.payload,
    {
        &self.payload
    }
}

} // verus!

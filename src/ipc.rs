//! Bounded message queue with receiver-addressed, order-preserving receive.

use vstd::prelude::*;

verus! {

/// Number of message slots in the queue.
pub const MAX_MESSAGES: usize = 64;

/// Largest payload stored per message; longer payloads are truncated.
pub const MESSAGE_DATA_SIZE: usize = 128;

#[derive(Clone, Copy, Debug, PartialEq, Eq, Structural)]
pub enum MessageType {
    Empty,
    Data,
    Signal,
}

/// The message type that a wire code stands for: unknown codes read as `Empty`.
pub open spec fn message_type_of_code(code: u8) -> MessageType {
    if code == 1 {
        MessageType::Data
    } else if code == 2 {
        MessageType::Signal
    } else {
        MessageType::Empty
    }
}

impl MessageType {
    /// Decodes a wire code. Unrecognised codes are coerced to `Empty` rather
    /// than rejected; whether they should become an error is an open question.
    pub fn from_code(code: u8) -> (r: MessageType)
        ensures
            r == message_type_of_code(code),
    {
        match code {
            1 => MessageType::Data,
            2 => MessageType::Signal,
            _ => MessageType::Empty,
        }
    }
}

/// What a message says, independent of the unused bytes of its buffer.
pub struct MessageView {
    pub msg_type: MessageType,
    pub sender_pid: u32,
    pub receiver_pid: u32,
    pub payload: Seq<u8>,
}

#[derive(Clone, Copy)]
pub struct Message {
    msg_type: MessageType,
    sender_pid: u32,
    receiver_pid: u32,
    data_length: usize,
    data: [u8; MESSAGE_DATA_SIZE],
}

impl View for Message {
    type V = MessageView;

    closed spec fn view(&self) -> MessageView {
        MessageView {
            msg_type: self.msg_type,
            sender_pid: self.sender_pid,
            receiver_pid: self.receiver_pid,
            payload: self.data@.take(self.data_length as int),
        }
    }
}

/// The payload that a send of `data` stores: at most `MESSAGE_DATA_SIZE` bytes.
pub open spec fn stored_payload(data: Seq<u8>) -> Seq<u8> {
    if data.len() <= MESSAGE_DATA_SIZE {
        data
    } else {
        data.take(MESSAGE_DATA_SIZE as int)
    }
}

impl Message {
    pub closed spec fn wf(&self) -> bool {
        self.data_length <= MESSAGE_DATA_SIZE
    }

    /// An empty message: type `Empty`, pids 0, no payload.
    pub fn new() -> (r: Message)
        ensures
            r.wf(),
            r@ == (MessageView {
                msg_type: MessageType::Empty,
                sender_pid: 0,
                receiver_pid: 0,
                payload: Seq::empty(),
            }),
    {
        let r = Message {
            msg_type: MessageType::Empty,
            sender_pid: 0,
            receiver_pid: 0,
            data_length: 0,
            data: [0u8; MESSAGE_DATA_SIZE],
        };
        assert(r@.payload =~= Seq::<u8>::empty());
        r
    }

    pub fn msg_type(&self) -> (r: MessageType)
        ensures
            r == self@.msg_type,
    {
        self.msg_type
    }

    pub fn sender_pid(&self) -> (r: u32)
        ensures
            r == self@.sender_pid,
    {
        self.sender_pid
    }

    pub fn receiver_pid(&self) -> (r: u32)
        ensures
            r == self@.receiver_pid,
    {
        self.receiver_pid
    }

    pub fn data_length(&self) -> (r: usize)
        requires
            self.wf(),
        ensures
            r == self@.payload.len(),
    {
        self.data_length
    }

    /// The stored payload bytes.
    pub fn payload(&self) -> (r: Vec<u8>)
        requires
            self.wf(),
        ensures
            r@ == self@.payload,
    {
        let mut r: Vec<u8> = Vec::new();
        let mut k: usize = 0;
        while k < self.data_length
            invariant
                self.wf(),
                k <= self.data_length,
                r@ == self.data@.take(k as int),
            decreases self.data_length - k,
        {
            r.push(self.data[k]);
            k = k + 1;
            assert(r@ =~= self.data@.take(k as int));
        }
        r
    }
}

/// Some message of `q` is addressed to `pid`.
pub open spec fn addressed_to(q: Seq<MessageView>, pid: u32) -> bool {
    exists|i: int| 0 <= i < q.len() && q[i].receiver_pid == pid
}

/// `i` is the position of the earliest message of `q` addressed to `pid`.
pub open spec fn first_for(q: Seq<MessageView>, pid: u32, i: int) -> bool {
    &&& 0 <= i < q.len()
    &&& q[i].receiver_pid == pid
    &&& forall|j: int| 0 <= j < i ==> q[j].receiver_pid != pid
}

/// Fixed-capacity ring buffer of messages.
pub struct MessageQueue {
    messages: [Message; MAX_MESSAGES],
    head: usize,
    tail: usize,
    count: usize,
}

/// Physical slot of the `i`-th live message when the ring starts at `head`.
pub open spec fn ring_slot(head: int, i: int) -> int {
    if head + i < MAX_MESSAGES {
        head + i
    } else {
        head + i - MAX_MESSAGES
    }
}

impl View for MessageQueue {
    type V = Seq<MessageView>;

    /// The live messages, oldest first.
    closed spec fn view(&self) -> Seq<MessageView> {
        Seq::new(self.count as nat, |i: int| self.messages@[ring_slot(self.head as int, i)]@)
    }
}

impl MessageQueue {
    pub closed spec fn wf(&self) -> bool {
        &&& self.head < MAX_MESSAGES
        &&& self.count <= MAX_MESSAGES
        &&& self.tail as int == ring_slot(self.head as int, self.count as int)
        &&& forall|p: int| 0 <= p < MAX_MESSAGES ==> #[trigger] self.messages@[p].wf()
    }

    /// An empty queue.
    pub fn new() -> (r: MessageQueue)
        ensures
            r.wf(),
            r@ == Seq::<MessageView>::empty(),
    {
        let m = Message::new();
        let r = MessageQueue { messages: [m; MAX_MESSAGES], head: 0, tail: 0, count: 0 };
        assert(r@ =~= Seq::<MessageView>::empty());
        r
    }

    /// Appends a message to `receiver_pid`; returns false, changing nothing,
    /// when the queue is full. Payloads longer than `MESSAGE_DATA_SIZE` bytes
    /// are truncated without any error being signalled.
    pub fn send_message(
        &mut self,
        msg_type: MessageType,
        sender_pid: u32,
        receiver_pid: u32,
        data: &[u8],
    ) -> (r: bool)
        requires
            old(self).wf(),
        ensures
            final(self).wf(),
            r == (old(self)@.len() < MAX_MESSAGES),
            r ==> final(self)@ == old(self)@.push(
                MessageView { msg_type, sender_pid, receiver_pid, payload: stored_payload(data@) },
            ),
            !r ==> final(self)@ == old(self)@,
    {
        if self.count >= MAX_MESSAGES {
            return false;
        }
        let data_length: usize = if data.len() < MESSAGE_DATA_SIZE {
            data.len()
        } else {
            MESSAGE_DATA_SIZE
        };
        let mut buf = [0u8; MESSAGE_DATA_SIZE];
        let mut k: usize = 0;
        while k < data_length
            invariant
                data_length <= MESSAGE_DATA_SIZE,
                data_length <= data@.len(),
                k <= data_length,
                buf@.take(k as int) == data@.take(k as int),
            decreases data_length - k,
        {
            buf[k] = data[k];
            k = k + 1;
            assert(buf@.take(k as int) =~= data@.take(k as int));
        }
        let msg = Message { msg_type, sender_pid, receiver_pid, data_length, data: buf };
        assert(msg@.payload =~= stored_payload(data@));
        let ghost before = self@;
        self.messages[self.tail] = msg;
        self.tail = (self.tail + 1) % MAX_MESSAGES;
        self.count = self.count + 1;
        assert(self@ =~= before.push(msg@));
        true
    }

    /// Removes and returns the earliest message addressed to `receiver_pid`.
    /// Later messages move one place towards the head, so the remaining
    /// messages keep their relative order.
    pub fn receive_message(&mut self, receiver_pid: u32) -> (r: Option<Message>)
        requires
            old(self).wf(),
        ensures
            final(self).wf(),
            r.is_none() <==> !addressed_to(old(self)@, receiver_pid),
            r.is_none() ==> final(self)@ == old(self)@,
            r.is_some() ==> exists|i: int|
                first_for(old(self)@, receiver_pid, i) && r.unwrap()@ == old(self)@[i]
                    && final(self)@ == old(self)@.remove(i),
            r.is_some() ==> r.unwrap().wf(),
    {
        let ghost q = self@;
        let mut i: usize = 0;
        while i < self.count
            invariant
                self.wf(),
                self@ == q,
                q == old(self)@,
                i <= self.count,
                forall|j: int| 0 <= j < i ==> q[j].receiver_pid != receiver_pid,
            decreases self.count - i,
        {
            let idx = (self.head + i) % MAX_MESSAGES;
            assert(idx as int == ring_slot(self.head as int, i as int));
            if self.messages[idx].receiver_pid == receiver_pid {
                let msg = self.messages[idx];
                assert(msg@ == q[i as int]);
                assert(q[i as int].receiver_pid == receiver_pid);
                assert(addressed_to(q, receiver_pid));
                self.compact_from(i);
                assert(first_for(q, receiver_pid, i as int));
                assert(self@ == q.remove(i as int));
                return Some(msg);
            }
            i = i + 1;
        }
        None
    }

    /// Closes the gap at live position `i`: every later message moves one
    /// slot towards the head, and the count and tail shrink by one.
    fn compact_from(&mut self, i: usize)
        requires
            old(self).wf(),
            i < old(self).count,
        ensures
            final(self).wf(),
            final(self)@ == old(self)@.remove(i as int),
    {
        let ghost q = self@;
        let ghost arr = self.messages@;
        let mut j: usize = i;
        while j + 1 < self.count
            invariant
                self.head < MAX_MESSAGES,
                self.count <= MAX_MESSAGES,
                self.tail as int == ring_slot(self.head as int, self.count as int),
                self.head == old(self).head,
                self.count == old(self).count,
                self.tail == old(self).tail,
                i <= j < self.count,
                q == old(self)@,
                arr == old(self).messages@,
                forall|p: int| 0 <= p < MAX_MESSAGES ==> #[trigger] self.messages@[p].wf(),
                forall|k: int|
                    0 <= k < i ==> #[trigger] self.messages@[ring_slot(self.head as int, k)]
                        == arr[ring_slot(self.head as int, k)],
                forall|k: int|
                    i <= k < j ==> #[trigger] self.messages@[ring_slot(self.head as int, k)]
                        == arr[ring_slot(self.head as int, k + 1)],
                forall|k: int|
                    j <= k < self.count ==> #[trigger] self.messages@[ring_slot(self.head as int, k)]
                        == arr[ring_slot(self.head as int, k)],
            decreases self.count - j,
        {
            let curr = (self.head + j) % MAX_MESSAGES;
            let next = (self.head + j + 1) % MAX_MESSAGES;
            assert(curr as int == ring_slot(self.head as int, j as int));
            assert(next as int == ring_slot(self.head as int, j + 1));
            let m = self.messages[next];
            self.messages[curr] = m;
            j = j + 1;
        }
        self.count = self.count - 1;
        self.tail = if self.tail == 0 {
            MAX_MESSAGES - 1
        } else {
            self.tail - 1
        };
        assert(self@ =~= q.remove(i as int));
    }

    /// Whether some queued message is addressed to `receiver_pid`.
    pub fn has_message_for(&self, receiver_pid: u32) -> (r: bool)
        requires
            self.wf(),
        ensures
            r == addressed_to(self@, receiver_pid),
    {
        let mut i: usize = 0;
        while i < self.count
            invariant
                self.wf(),
                i <= self.count,
                forall|j: int| 0 <= j < i ==> self@[j].receiver_pid != receiver_pid,
            decreases self.count - i,
        {
            let idx = (self.head + i) % MAX_MESSAGES;
            assert(idx as int == ring_slot(self.head as int, i as int));
            if self.messages[idx].receiver_pid == receiver_pid {
                assert(self@[i as int].receiver_pid == receiver_pid);
                return true;
            }
            i = i + 1;
        }
        false
    }

    /// Number of queued messages.
    pub fn get_count(&self) -> (r: usize)
        requires
            self.wf(),
        ensures
            r == self@.len(),
    {
        self.count
    }
}

/// In every state the queue reaches, it holds at most `MAX_MESSAGES` messages.
pub proof fn lemma_queue_bounded(q: &MessageQueue)
    requires
        q.wf(),
    ensures
        q@.len() <= MAX_MESSAGES,
{
}

} // verus!


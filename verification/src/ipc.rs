//! Publish/subscribe messaging between tasks.
//!
//! A topic keeps the messages published to it, in order, and a record for
//! every subscribed task: the semaphore that counts the messages the task has
//! not read yet, and the position of the next one. A task only sees what is
//! published after it has subscribed.
//!
//! Topics are named by byte strings without zero bytes, which is what crosses
//! the trap boundary; a name is made from text by `cstr_core::CString`.

use vstd::prelude::*;
use cstr_core::CString;
use vstd::string::StringSliceAdditionalSpecFns;
use crate::kernel::{Kernel, KernelView};
use crate::lookup::{first_index, first_index_from, occurs};
use crate::semaphore::SemaphoreView;

verus! {

/// `cstr_core::CString`, taken as it is: nothing is known of its inside.
#[verifier::external_type_specification]
#[verifier::external_body]
pub struct ExCString(CString);

/// The bytes of a C string, without the terminating zero.
pub uninterp spec fn c_bytes(name: CString) -> Seq<u8>;

/// `CString::new` on the bytes of a string slice: fails exactly if one of the
/// bytes is zero, and otherwise gives a C string that holds those bytes.
#[verifier::external_body]
fn c_string_new(topic: &str) -> (name: Option<CString>)
    ensures
        name is Some <==> !topic.spec_bytes().contains(0u8),
        name is Some ==> c_bytes(name->0) == topic.spec_bytes(),
{
    CString::new(topic).ok()
}

/// `CString::as_bytes`, copied: the bytes without the terminating zero.
#[verifier::external_body]
fn c_string_bytes(name: &CString) -> (bytes: Vec<u8>)
    ensures
        bytes@ == c_bytes(*name),
{
    name.as_bytes().to_vec()
}

/// A message as it crosses the trap boundary: the bytes, and whether there
/// is a message at all.
pub struct Message {
    pub data: Vec<u8>,
    pub valid: bool,
}

impl Message {
    /// A valid message that holds the given bytes.
    pub fn from(item: Vec<u8>) -> (msg: Message)
        ensures
            msg.valid,
            msg.data@ == item@,
    {
        Message { data: item, valid: true }
    }

    /// The bytes of the message.
    pub fn into_vec(self) -> (bytes: Vec<u8>)
        ensures
            bytes@ == self.data@,
    {
        self.data
    }
}

/// The message that stands for "no message".
pub fn get_null_message() -> (msg: Message)
    ensures
        !msg.valid,
        msg.data@.len() == 0,
{
    Message { data: Vec::new(), valid: false }
}

/// What the registry knows of a subscribed task.
#[derive(Clone, Copy, PartialEq, Eq, Structural, Debug)]
pub struct Subscription {
    /// The subscribed task.
    pub pid: usize,
    /// The handle of the semaphore that counts its unread messages.
    pub lock: usize,
    /// The position, among the messages of the topic, of the next one it
    /// reads.
    pub next: usize,
}

/// What a topic is, for contracts.
pub struct TopicView {
    pub name: Seq<u8>,
    pub messages: Seq<Seq<u8>>,
    pub subscribers: Seq<Subscription>,
}

impl TopicView {
    /// The subscribed tasks, in the order of the records.
    pub open spec fn pids(self) -> Seq<usize> {
        self.subscribers.map_values(|s: Subscription| s.pid)
    }

    /// The semaphores of the subscribed tasks, in the order of the records.
    pub open spec fn locks(self) -> Seq<usize> {
        self.subscribers.map_values(|s: Subscription| s.lock)
    }

    /// Whether the task `pid` is subscribed.
    pub open spec fn has(self, pid: usize) -> bool {
        occurs(self.pids(), pid)
    }

    /// The position of the record of the task `pid`.
    pub open spec fn index_of(self, pid: usize) -> int {
        first_index(self.pids(), pid)
    }

    /// The topic after `message` has been published: it is the last of the
    /// messages now.
    pub open spec fn after_add_message(self, message: Seq<u8>) -> TopicView {
        TopicView { messages: self.messages.push(message), ..self }
    }

    /// The topic after the task `pid` has subscribed with the semaphore
    /// `lock`. A record that the task already had is replaced. The task
    /// starts behind the messages that are there.
    pub open spec fn after_add_subscriber(self, pid: usize, lock: usize) -> TopicView {
        let record = Subscription { pid, lock, next: self.messages.len() as usize };
        TopicView {
            subscribers: if self.has(pid) {
                self.subscribers.update(self.index_of(pid), record)
            } else {
                self.subscribers.push(record)
            },
            ..self
        }
    }

    /// The topic after the record of the task `pid` has been removed.
    pub open spec fn after_remove_subscriber(self, pid: usize) -> TopicView {
        TopicView {
            subscribers: if self.has(pid) {
                self.subscribers.remove(self.index_of(pid))
            } else {
                self.subscribers
            },
            ..self
        }
    }

    /// Whether the task `pid` is subscribed and has a message to read.
    pub open spec fn has_unread(self, pid: usize) -> bool {
        self.has(pid) && self.subscribers[self.index_of(pid)].next < self.messages.len()
    }

    /// The topic after the task `pid` has read its next message.
    pub open spec fn after_read(self, pid: usize) -> TopicView {
        if self.has_unread(pid) {
            let old_record = self.subscribers[self.index_of(pid)];
            TopicView {
                subscribers: self.subscribers.update(
                    self.index_of(pid),
                    Subscription { next: (old_record.next + 1) as usize, ..old_record },
                ),
                ..self
            }
        } else {
            self
        }
    }
}

/// A topic: its name, its messages and its subscribers.
pub struct Topic {
    name: Vec<u8>,
    messages: Vec<Vec<u8>>,
    subscribers: Vec<Subscription>,
}

impl View for Topic {
    type V = TopicView;

    closed spec fn view(&self) -> TopicView {
        TopicView {
            name: self.name@,
            messages: self.messages@.map_values(|m: Vec<u8>| m@),
            subscribers: self.subscribers@,
        }
    }
}

/// Copies a byte string.
fn copy_bytes(bytes: &Vec<u8>) -> (copy: Vec<u8>)
    ensures
        copy@ == bytes@,
{
    let mut copy: Vec<u8> = Vec::new();
    let mut i: usize = 0;
    while i < bytes.len()
        invariant
            i <= bytes.len(),
            copy@ == bytes@.subrange(0, i as int),
        decreases bytes.len() - i,
    {
        copy.push(bytes[i]);
        i += 1;
        assert(copy@ =~= bytes@.subrange(0, i as int));
    }
    assert(bytes@.subrange(0, bytes.len() as int) =~= bytes@);
    copy
}

/// Whether two byte strings are the same.
fn same_bytes(a: &Vec<u8>, b: &Vec<u8>) -> (same: bool)
    ensures
        same == (a@ == b@),
{
    if a.len() != b.len() {
        return false;
    }
    let mut i: usize = 0;
    while i < a.len()
        invariant
            i <= a.len(),
            a.len() == b.len(),
            a@.subrange(0, i as int) == b@.subrange(0, i as int),
        decreases a.len() - i,
    {
        if a[i] != b[i] {
            return false;
        }
        i += 1;
        assert(a@.subrange(0, i as int) =~= a@.subrange(0, i - 1).push(a@[i - 1]));
        assert(b@.subrange(0, i as int) =~= b@.subrange(0, i - 1).push(b@[i - 1]));
    }
    assert(a@.subrange(0, a.len() as int) =~= a@);
    assert(b@.subrange(0, b.len() as int) =~= b@);
    true
}

impl Topic {
    /// A topic without messages and without subscribers.
    pub fn new(name: Vec<u8>) -> (topic: Topic)
        ensures
            topic@ == (TopicView {
                name: name@,
                messages: Seq::<Seq<u8>>::empty(),
                subscribers: Seq::<Subscription>::empty(),
            }),
    {
        let topic = Topic { name, messages: Vec::new(), subscribers: Vec::new() };
        assert(topic@.messages =~= Seq::<Seq<u8>>::empty());
        topic
    }

    /// Finds the record of the task `pid`.
    fn find(&self, pid: usize) -> (found: Option<usize>)
        ensures
            found is Some <==> self@.has(pid),
            found is Some ==> found->0 == self@.index_of(pid) && found->0 < self@.subscribers.len()
                && self@.subscribers[found->0 as int].pid == pid,
    {
        let ghost ids = self@.pids();
        let mut i: usize = 0;
        while i < self.subscribers.len()
            invariant
                i <= self.subscribers.len(),
                ids == self@.pids(),
                ids.len() == self.subscribers.len(),
                first_index(ids, pid) == first_index_from(ids, pid, i as int),
            decreases self.subscribers.len() - i,
        {
            assert(ids[i as int] == self.subscribers@[i as int].pid);
            if self.subscribers[i].pid == pid {
                return Some(i);
            }
            i += 1;
        }
        None
    }

    /// Appends a message to the topic and gives the semaphore of every
    /// subscriber once.
    pub fn add_message(&mut self, kernel: &mut Kernel, message: &Vec<u8>)
        ensures
            final(self)@ == old(self)@.after_add_message(message@),
            final(kernel)@ == given_all(old(kernel)@, old(self)@.locks()),
    {
        let ghost before = self@;
        self.messages.push(copy_bytes(message));
        assert(self@.messages =~= before.messages.push(message@));
        let ghost locks = before.locks();
        let mut i: usize = 0;
        assert(locks.subrange(0, 0) =~= Seq::<usize>::empty());
        while i < self.subscribers.len()
            invariant
                i <= self.subscribers.len(),
                self@ == before.after_add_message(message@),
                locks == before.locks(),
                locks.len() == self.subscribers.len(),
                kernel@ == given_all(old(kernel)@, locks.subrange(0, i as int)),
            decreases self.subscribers.len() - i,
        {
            assert(locks[i as int] == self.subscribers@[i as int].lock);
            kernel.sem_give(self.subscribers[i].lock);
            i += 1;
            assert(locks.subrange(0, i as int).drop_last() =~= locks.subrange(0, i - 1));
        }
        assert(locks.subrange(0, locks.len() as int) =~= locks);
    }

    /// Subscribes the task `pid` with the semaphore `lock`.
    pub fn add_subscriber(&mut self, pid: usize, lock: usize)
        ensures
            final(self)@ == old(self)@.after_add_subscriber(pid, lock),
    {
        let record = Subscription { pid, lock, next: self.messages.len() };
        match self.find(pid) {
            Some(i) => {
                self.subscribers[i] = record;
            },
            None => {
                self.subscribers.push(record);
            },
        }
    }

    /// Removes the record of the task `pid` and returns it.
    pub fn remove_subscriber(&mut self, pid: usize) -> (removed: Option<Subscription>)
        ensures
            final(self)@ == old(self)@.after_remove_subscriber(pid),
            removed == if old(self)@.has(pid) {
                Some(old(self)@.subscribers[old(self)@.index_of(pid)])
            } else {
                None
            },
    {
        match self.find(pid) {
            Some(i) => Some(self.subscribers.remove(i)),
            None => None,
        }
    }

    /// The handle of the semaphore of the task `pid`.
    pub fn subscriber_lock(&self, pid: usize) -> (lock: Option<usize>)
        ensures
            lock == if self@.has(pid) {
                Some(self@.subscribers[self@.index_of(pid)].lock)
            } else {
                None
            },
    {
        match self.find(pid) {
            Some(i) => Some(self.subscribers[i].lock),
            None => None,
        }
    }

    /// Hands the task `pid` its next message and moves it on. Returns `None`
    /// if the task is not subscribed or has read everything.
    pub fn read(&mut self, pid: usize) -> (message: Option<Vec<u8>>)
        ensures
            final(self)@ == old(self)@.after_read(pid),
            message is Some <==> old(self)@.has_unread(pid),
            message is Some ==> message->0@ == old(self)@.messages[old(self)@.subscribers[old(
                self,
            )@.index_of(pid)].next as int],
    {
        match self.find(pid) {
            Some(i) => {
                let record: Subscription = self.subscribers[i];
                if record.next < self.messages.len() {
                    let message: Vec<u8> = copy_bytes(&self.messages[record.next]);
                    self.subscribers[i] = Subscription { next: record.next + 1, ..record };
                    Some(message)
                } else {
                    None
                }
            },
            None => None,
        }
    }
}

/// The kernel context after each of the semaphores in `locks` has been
/// given once, in order.
pub open spec fn given_all(kernel: KernelView, locks: Seq<usize>) -> KernelView
    decreases locks.len(),
{
    if locks.len() == 0 {
        kernel
    } else {
        given_all(kernel, locks.drop_last()).after_sem_give(locks.last())
    }
}

/// The names of the topics, in the order of the registry.
pub open spec fn names(topics: Seq<TopicView>) -> Seq<Seq<u8>> {
    topics.map_values(|t: TopicView| t.name)
}

/// Whether there is a topic with this name.
pub open spec fn has_topic(topics: Seq<TopicView>, name: Seq<u8>) -> bool {
    occurs(names(topics), name)
}

/// The position of the topic with this name.
pub open spec fn topic_index(topics: Seq<TopicView>, name: Seq<u8>) -> int {
    first_index(names(topics), name)
}

/// The topics after `message` has been published to the topic `name`. A
/// message to a topic that does not exist is lost.
pub open spec fn after_publish(topics: Seq<TopicView>, name: Seq<u8>, message: Seq<u8>) -> Seq<
    TopicView,
> {
    if has_topic(topics, name) {
        let i = topic_index(topics, name);
        topics.update(i, topics[i].after_add_message(message))
    } else {
        topics
    }
}

/// The semaphores that a publication to the topic `name` gives.
pub open spec fn publish_locks(topics: Seq<TopicView>, name: Seq<u8>) -> Seq<usize> {
    if has_topic(topics, name) {
        topics[topic_index(topics, name)].locks()
    } else {
        Seq::<usize>::empty()
    }
}

/// The topics after the task `pid` has subscribed to the topic `name` with
/// the semaphore `lock`. The topic is created if it does not exist.
pub open spec fn after_subscribe(topics: Seq<TopicView>, name: Seq<u8>, pid: usize, lock: usize) -> Seq<
    TopicView,
> {
    if has_topic(topics, name) {
        let i = topic_index(topics, name);
        topics.update(i, topics[i].after_add_subscriber(pid, lock))
    } else {
        topics.push(
            TopicView {
                name,
                messages: Seq::<Seq<u8>>::empty(),
                subscribers: seq![Subscription { pid, lock, next: 0 }],
            },
        )
    }
}

/// The record of the task `pid` with the topic `name`, if it is subscribed.
pub open spec fn subscription(topics: Seq<TopicView>, name: Seq<u8>, pid: usize) -> Option<
    Subscription,
> {
    if has_topic(topics, name) && topics[topic_index(topics, name)].has(pid) {
        let topic = topics[topic_index(topics, name)];
        Some(topic.subscribers[topic.index_of(pid)])
    } else {
        None
    }
}

/// The topics after the task `pid` has unsubscribed from the topic `name`.
pub open spec fn after_unsubscribe(topics: Seq<TopicView>, name: Seq<u8>, pid: usize) -> Seq<
    TopicView,
> {
    if has_topic(topics, name) {
        let i = topic_index(topics, name);
        topics.update(i, topics[i].after_remove_subscriber(pid))
    } else {
        topics
    }
}

/// The message that the task `pid` reads next from the topic `name`, if it
/// is subscribed and has not read everything.
pub open spec fn next_message(topics: Seq<TopicView>, name: Seq<u8>, pid: usize) -> Option<
    Seq<u8>,
> {
    match subscription(topics, name, pid) {
        Some(record) => {
            let topic = topics[topic_index(topics, name)];
            if record.next < topic.messages.len() {
                Some(topic.messages[record.next as int])
            } else {
                None
            }
        },
        None => None,
    }
}

/// The topics after the task `pid` has read its next message from the topic
/// `name`.
pub open spec fn after_get_message(topics: Seq<TopicView>, name: Seq<u8>, pid: usize) -> Seq<
    TopicView,
> {
    if has_topic(topics, name) {
        let i = topic_index(topics, name);
        topics.update(i, topics[i].after_read(pid))
    } else {
        topics
    }
}

/// The registry of topics.
pub struct TopicRegistry {
    topic_lookup: Vec<Topic>,
}

impl View for TopicRegistry {
    type V = Seq<TopicView>;

    closed spec fn view(&self) -> Seq<TopicView> {
        self.topic_lookup@.map_values(|t: Topic| t@)
    }
}

impl TopicRegistry {
    /// A registry without topics.
    pub fn new() -> (registry: TopicRegistry)
        ensures
            registry@ == Seq::<TopicView>::empty(),
    {
        let registry = TopicRegistry { topic_lookup: Vec::new() };
        assert(registry@ =~= Seq::<TopicView>::empty());
        registry
    }

    /// Finds the topic with this name.
    fn find_topic(&self, name: &Vec<u8>) -> (found: Option<usize>)
        ensures
            found is Some <==> has_topic(self@, name@),
            found is Some ==> found->0 == topic_index(self@, name@) && found->0 < self@.len(),
    {
        let ghost all = names(self@);
        let mut i: usize = 0;
        while i < self.topic_lookup.len()
            invariant
                i <= self.topic_lookup.len(),
                all == names(self@),
                all.len() == self.topic_lookup.len(),
                first_index(all, name@) == first_index_from(all, name@, i as int),
            decreases self.topic_lookup.len() - i,
        {
            assert(all[i as int] == self.topic_lookup@[i as int]@.name);
            if same_bytes(&self.topic_lookup[i].name, name) {
                return Some(i);
            }
            i += 1;
        }
        None
    }

    /// Publishes `message` to the topic `message_topic`: the message is
    /// appended to the topic and every subscriber's semaphore is given. If
    /// there is no such topic nothing happens.
    pub fn publish_to_topic(&mut self, kernel: &mut Kernel, message_topic: &Vec<u8>, message: &Vec<u8>)
        ensures
            final(self)@ == after_publish(old(self)@, message_topic@, message@),
            final(kernel)@ == given_all(old(kernel)@, publish_locks(old(self)@, message_topic@)),
    {
        let ghost before = self@;
        match self.find_topic(message_topic) {
            Some(i) => {
                assert(before[i as int] == self.topic_lookup@[i as int]@);
                self.topic_lookup[i].add_message(kernel, message);
                assert(self@ =~= before.update(i as int, self.topic_lookup@[i as int]@));
            },
            None => {},
        }
    }

    /// Subscribes the running task to the topic `subscriber_topic`, which is
    /// created if it does not exist. The task gets a new semaphore that
    /// counts its unread messages.
    pub fn subscribe_to_topic(&mut self, kernel: &mut Kernel, subscriber_topic: &Vec<u8>)
        ensures
            final(kernel)@ == old(kernel)@.after_sem_new(SemaphoreView { count: 0, mutex: false }),
            final(self)@ == after_subscribe(
                old(self)@,
                subscriber_topic@,
                old(kernel)@.cur_pid(),
                old(kernel)@.semaphores.len() as usize,
            ),
    {
        let ghost before = self@;
        let pid: usize = kernel.cur_pid();
        let lock: usize = kernel.sem_new(0);
        match self.find_topic(subscriber_topic) {
            Some(i) => {
                assert(before[i as int] == self.topic_lookup@[i as int]@);
                self.topic_lookup[i].add_subscriber(pid, lock);
                assert(self@ =~= before.update(i as int, self.topic_lookup@[i as int]@));
            },
            None => {
                let mut topic = Topic::new(copy_bytes(subscriber_topic));
                topic.add_subscriber(pid, lock);
                assert(topic@.subscribers =~= seq![Subscription { pid, lock, next: 0 }]);
                self.topic_lookup.push(topic);
                assert(self@ =~= before.push(topic@));
            },
        }
    }

    /// Ends the subscription of the task `pid` to the topic
    /// `subscriber_topic` and returns its record, or `None` if there was no
    /// such subscription.
    pub fn unsubscribe_from_topic(&mut self, pid: usize, subscriber_topic: &Vec<u8>) -> (removed:
        Option<Subscription>)
        ensures
            removed == subscription(old(self)@, subscriber_topic@, pid),
            final(self)@ == after_unsubscribe(old(self)@, subscriber_topic@, pid),
    {
        let ghost before = self@;
        match self.find_topic(subscriber_topic) {
            Some(i) => {
                assert(before[i as int] == self.topic_lookup@[i as int]@);
                let removed = self.topic_lookup[i].remove_subscriber(pid);
                assert(self@ =~= before.update(i as int, self.topic_lookup@[i as int]@));
                removed
            },
            None => None,
        }
    }

    /// Hands the task `pid` its next message from the topic `msg_topic`.
    /// Returns `None` if the task is not subscribed to such a topic or has
    /// read everything.
    pub fn get_ipc_message(&mut self, pid: usize, msg_topic: &Vec<u8>) -> (message: Option<Vec<u8>>)
        ensures
            message is Some <==> next_message(old(self)@, msg_topic@, pid) is Some,
            message is Some ==> message->0@ == next_message(old(self)@, msg_topic@, pid)->0,
            final(self)@ == after_get_message(old(self)@, msg_topic@, pid),
    {
        let ghost before = self@;
        match self.find_topic(msg_topic) {
            Some(i) => {
                assert(before[i as int] == self.topic_lookup@[i as int]@);
                let message = self.topic_lookup[i].read(pid);
                assert(self@ =~= before.update(i as int, self.topic_lookup@[i as int]@));
                message
            },
            None => None,
        }
    }

    /// The handle of the semaphore that counts the unread messages of the
    /// task `pid` in the topic `msg_topic`.
    pub fn get_subscriber_lock(&self, pid: usize, msg_topic: &Vec<u8>) -> (lock: Option<usize>)
        ensures
            lock == match subscription(self@, msg_topic@, pid) {
                Some(record) => Some(record.lock),
                None => None,
            },
    {
        match self.find_topic(msg_topic) {
            Some(i) => {
                assert(self@[i as int] == self.topic_lookup@[i as int]@);
                self.topic_lookup[i].subscriber_lock(pid)
            },
            None => None,
        }
    }

    /// Ends every subscription of the task `pid`, as has to happen when the
    /// task exits.
    pub fn unsubscribe_all(&mut self, pid: usize)
        ensures
            final(self)@.len() == old(self)@.len(),
            forall|i: int|
                0 <= i < old(self)@.len() ==> #[trigger] final(self)@[i] == old(
                    self,
                )@[i].after_remove_subscriber(pid),
    {
        let ghost before = self@;
        let mut i: usize = 0;
        while i < self.topic_lookup.len()
            invariant
                i <= self.topic_lookup.len(),
                self@.len() == before.len(),
                forall|j: int| 0 <= j < i ==> #[trigger] self@[j] == before[j].after_remove_subscriber(pid),
                forall|j: int| i <= j < before.len() ==> #[trigger] self@[j] == before[j],
            decreases self.topic_lookup.len() - i,
        {
            let ghost prev = self@;
            let ghost prev_topics = self.topic_lookup@;
            assert(prev[i as int] == prev_topics[i as int]@);
            let _ = self.topic_lookup[i].remove_subscriber(pid);
            assert forall|j: int| 0 <= j < before.len() && j != i implies #[trigger] self@[j]
                == prev[j] by {
                assert(self@[j] == self.topic_lookup@[j]@);
                assert(prev[j] == prev_topics[j]@);
                assert(self.topic_lookup@[j] == prev_topics[j]);
            }
            assert(self@[i as int] == self.topic_lookup@[i as int]@);
            assert(self@[i as int] == before[i as int].after_remove_subscriber(pid));
            i += 1;
        }
    }
}

/// Giving semaphores keeps the kernel context consistent.
pub proof fn lemma_given_all_wf(kernel: KernelView, locks: Seq<usize>)
    requires
        kernel.wf(),
    ensures
        given_all(kernel, locks).wf(),
    decreases locks.len(),
{
    if locks.len() > 0 {
        lemma_given_all_wf(kernel, locks.drop_last());
        crate::consistency::lemma_wf_preserved(
            given_all(kernel, locks.drop_last()),
            0,
            locks.last(),
            0,
            0,
            0,
            SemaphoreView { count: 0, mutex: false },
            0,
        );
    }
}

/// What a request for a message comes to.
#[derive(Debug, PartialEq, Eq)]
pub enum Delivery {
    /// The next message of the topic.
    Message(Vec<u8>),
    /// There is no message for the task: it is not subscribed, or it has
    /// read everything and did not ask to wait.
    Nothing,
    /// The task has read everything: it blocks on the semaphore with the
    /// given handle and asks again.
    Block(usize),
}

/// The privileged operation behind a publication. Returns zero.
pub fn sys_ipc_publish(
    kernel: &mut Kernel,
    registry: &mut TopicRegistry,
    c_topic: &CString,
    msg: Vec<u8>,
) -> (status: usize)
    ensures
        status == 0,
        final(registry)@ == after_publish(old(registry)@, c_bytes(*c_topic), msg@),
        final(kernel)@ == given_all(old(kernel)@, publish_locks(old(registry)@, c_bytes(*c_topic))),
{
    let topic: Vec<u8> = c_string_bytes(c_topic);
    registry.publish_to_topic(kernel, &topic, &msg);
    0
}

/// The privileged operation behind a subscription of the running task.
/// Returns zero.
pub fn sys_ipc_subscribe(kernel: &mut Kernel, registry: &mut TopicRegistry, c_topic: &CString) -> (status:
    usize)
    ensures
        status == 0,
        final(kernel)@ == old(kernel)@.after_sem_new(SemaphoreView { count: 0, mutex: false }),
        final(registry)@ == after_subscribe(
            old(registry)@,
            c_bytes(*c_topic),
            old(kernel)@.cur_pid(),
            old(kernel)@.semaphores.len() as usize,
        ),
{
    let topic: Vec<u8> = c_string_bytes(c_topic);
    registry.subscribe_to_topic(kernel, &topic);
    0
}

/// The privileged operation that ends a subscription of the running task.
/// Returns zero, or one if there was no such subscription.
pub fn sys_ipc_unsubscribe(kernel: &Kernel, registry: &mut TopicRegistry, c_topic: &CString) -> (status:
    usize)
    ensures
        status == if subscription(old(registry)@, c_bytes(*c_topic), kernel@.cur_pid()) is Some {
            0usize
        } else {
            1usize
        },
        final(registry)@ == after_unsubscribe(old(registry)@, c_bytes(*c_topic), kernel@.cur_pid()),
{
    let topic: Vec<u8> = c_string_bytes(c_topic);
    match registry.unsubscribe_from_topic(kernel.cur_pid(), &topic) {
        Some(_) => 0,
        None => 1,
    }
}

/// Whether a request of the task `pid` for a message from the topic `name`
/// takes the semaphore of the subscription and reads on.
pub open spec fn takes_message(kernel: KernelView, topics: Seq<TopicView>, name: Seq<u8>, pid: usize) -> bool {
    subscription(topics, name, pid) is Some && kernel.sem_available(
        subscription(topics, name, pid)->0.lock,
    )
}

/// The kernel context after a request of the task `pid` for a message from
/// the topic `name`.
pub open spec fn kernel_after_request(
    kernel: KernelView,
    topics: Seq<TopicView>,
    name: Seq<u8>,
    pid: usize,
) -> KernelView {
    if takes_message(kernel, topics, name, pid) {
        kernel.after_sem_take(subscription(topics, name, pid)->0.lock)
    } else {
        kernel
    }
}

/// The topics after a request of the task `pid` for a message from the
/// topic `name`.
pub open spec fn topics_after_request(
    kernel: KernelView,
    topics: Seq<TopicView>,
    name: Seq<u8>,
    pid: usize,
) -> Seq<TopicView> {
    if takes_message(kernel, topics, name, pid) {
        after_get_message(topics, name, pid)
    } else {
        topics
    }
}

/// Whether `delivered` is what a request of the task `pid` for a message
/// from the topic `name` comes to.
pub open spec fn is_delivery(
    delivered: Delivery,
    kernel: KernelView,
    topics: Seq<TopicView>,
    name: Seq<u8>,
    pid: usize,
    block: bool,
) -> bool {
    if takes_message(kernel, topics, name, pid) {
        match next_message(topics, name, pid) {
            Some(message) => delivered matches Delivery::Message(m) && m@ == message,
            None => delivered is Nothing,
        }
    } else if block && subscription(topics, name, pid) is Some {
        delivered matches Delivery::Block(lock) && lock == subscription(topics, name, pid)->0.lock
    } else {
        delivered is Nothing
    }
}

/// The privileged operation behind a request of the running task for its
/// next message from a topic.
///
/// A task that is not subscribed gets nothing. A subscribed task whose
/// semaphore can be taken takes it and reads its next message. One whose
/// semaphore cannot be taken gets nothing, or, if it asked to wait, is told
/// to block on the semaphore; in both cases nothing changes.
pub fn sys_ipc_get_message(
    kernel: &mut Kernel,
    registry: &mut TopicRegistry,
    c_topic: &CString,
    block: bool,
) -> (delivered: Delivery)
    ensures
        final(kernel)@ == kernel_after_request(
            old(kernel)@,
            old(registry)@,
            c_bytes(*c_topic),
            old(kernel)@.cur_pid(),
        ),
        final(registry)@ == topics_after_request(
            old(kernel)@,
            old(registry)@,
            c_bytes(*c_topic),
            old(kernel)@.cur_pid(),
        ),
        is_delivery(
            delivered,
            old(kernel)@,
            old(registry)@,
            c_bytes(*c_topic),
            old(kernel)@.cur_pid(),
            block,
        ),
{
    let topic: Vec<u8> = c_string_bytes(c_topic);
    let pid: usize = kernel.cur_pid();
    let lock: usize = match registry.get_subscriber_lock(pid, &topic) {
        Some(lock) => lock,
        None => {
            return Delivery::Nothing;
        },
    };
    if !kernel.sem_try_take(lock) {
        assert(kernel@.semaphores =~= old(kernel)@.semaphores);
        if block {
            return Delivery::Block(lock);
        } else {
            return Delivery::Nothing;
        }
    }
    match registry.get_ipc_message(pid, &topic) {
        Some(msg) => Delivery::Message(msg),
        None => Delivery::Nothing,
    }
}

/// A handle with which a task publishes messages to a topic.
pub struct Publisher {
    pub topic: CString,
}

impl Publisher {
    /// Creates a publisher for the topic named `topic`. Fails if the name
    /// holds a zero byte.
    pub fn new(topic: &str) -> (publisher: Result<Publisher, &'static str>)
        ensures
            publisher is Ok <==> !topic.spec_bytes().contains(0u8),
            publisher is Ok ==> c_bytes(publisher->Ok_0.topic) == topic.spec_bytes(),
            publisher is Err ==> publisher->Err_0@ == "Invalid topic string"@,
    {
        let c_topic: CString = match c_string_new(topic) {
            Some(t) => t,
            None => {
                return Err("Invalid topic string");
            },
        };
        Ok(Publisher { topic: c_topic })
    }

    /// Publishes a message to the topic and gives up the processor, so that
    /// the subscribers get to read it.
    pub fn publish(&mut self, kernel: &mut Kernel, registry: &mut TopicRegistry, message: Vec<u8>) -> (r:
        Result<(), &'static str>)
        ensures
            r is Ok,
            final(self).topic == old(self).topic,
            final(registry)@ == after_publish(old(registry)@, c_bytes(old(self).topic), message@),
            final(kernel)@ == given_all(
                old(kernel)@,
                publish_locks(old(registry)@, c_bytes(old(self).topic)),
            ).after_context_switch(),
    {
        let success: usize = sys_ipc_publish(kernel, registry, &self.topic, message);
        if success == 0 {
            kernel.sys_yield();
            Ok(())
        } else {
            Err("Unable to publish to topic.")
        }
    }
}

/// A handle with which a task reads the messages of a topic.
pub struct Subscriber {
    pub topic: CString,
}

impl Subscriber {
    /// Subscribes the running task to the topic named `topic`. Fails, with
    /// nothing changed, if the name holds a zero byte.
    pub fn new(kernel: &mut Kernel, registry: &mut TopicRegistry, topic: &str) -> (subscriber: Result<
        Subscriber,
        &'static str,
    >)
        ensures
            subscriber is Ok <==> !topic.spec_bytes().contains(0u8),
            subscriber is Err ==> subscriber->Err_0@ == "Invalid topic string"@ && final(kernel)@
                == old(kernel)@ && final(registry)@ == old(registry)@,
            subscriber is Ok ==> {
                &&& c_bytes(subscriber->Ok_0.topic) == topic.spec_bytes()
                &&& final(kernel)@ == old(kernel)@.after_sem_new(
                    SemaphoreView { count: 0, mutex: false },
                )
                &&& final(registry)@ == after_subscribe(
                    old(registry)@,
                    topic.spec_bytes(),
                    old(kernel)@.cur_pid(),
                    old(kernel)@.semaphores.len() as usize,
                )
            },
    {
        let c_topic: CString = match c_string_new(topic) {
            Some(t) => t,
            None => {
                return Err("Invalid topic string");
            },
        };
        let new_sub = Subscriber { topic: c_topic };
        let resp: usize = sys_ipc_subscribe(kernel, registry, &new_sub.topic);
        if resp == 1 {
            Err("Failed to subscribe to topic.")
        } else {
            Ok(new_sub)
        }
    }

    /// Asks for the next message of the topic, ready to wait for one.
    pub fn get_message(&mut self, kernel: &mut Kernel, registry: &mut TopicRegistry) -> (delivered:
        Delivery)
        ensures
            final(self).topic == old(self).topic,
            final(kernel)@ == kernel_after_request(
                old(kernel)@,
                old(registry)@,
                c_bytes(old(self).topic),
                old(kernel)@.cur_pid(),
            ),
            final(registry)@ == topics_after_request(
                old(kernel)@,
                old(registry)@,
                c_bytes(old(self).topic),
                old(kernel)@.cur_pid(),
            ),
            is_delivery(
                delivered,
                old(kernel)@,
                old(registry)@,
                c_bytes(old(self).topic),
                old(kernel)@.cur_pid(),
                true,
            ),
    {
        sys_ipc_get_message(kernel, registry, &self.topic, true)
    }

    /// Returns the next message of the topic if there is one.
    pub fn get_message_nonblocking(&mut self, kernel: &mut Kernel, registry: &mut TopicRegistry) -> (message:
        Option<Vec<u8>>)
        ensures
            final(self).topic == old(self).topic,
            final(kernel)@ == kernel_after_request(
                old(kernel)@,
                old(registry)@,
                c_bytes(old(self).topic),
                old(kernel)@.cur_pid(),
            ),
            final(registry)@ == topics_after_request(
                old(kernel)@,
                old(registry)@,
                c_bytes(old(self).topic),
                old(kernel)@.cur_pid(),
            ),
            is_delivery(
                match message {
                    Some(m) => Delivery::Message(m),
                    None => Delivery::Nothing,
                },
                old(kernel)@,
                old(registry)@,
                c_bytes(old(self).topic),
                old(kernel)@.cur_pid(),
                false,
            ),
    {
        match sys_ipc_get_message(kernel, registry, &self.topic, false) {
            Delivery::Message(message) => Some(message),
            _ => None,
        }
    }

    /// Ends the subscription.
    pub fn unsubscribe(self, kernel: &Kernel, registry: &mut TopicRegistry)
        ensures
            final(registry)@ == after_unsubscribe(old(registry)@, c_bytes(self.topic), kernel@.cur_pid()),
    {
        sys_ipc_unsubscribe(kernel, registry, &self.topic);
    }
}

} // verus!

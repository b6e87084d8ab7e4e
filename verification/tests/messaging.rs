use fe_rtos::arch::Arch;
use fe_rtos::ipc::{
    get_null_message, sys_ipc_get_message, sys_ipc_publish, sys_ipc_subscribe,
    sys_ipc_unsubscribe, Delivery, Message, Publisher, Subscriber, Subscription, Topic,
    TopicRegistry,
};
use fe_rtos::kernel::{start_scheduler, Kernel};
use fe_rtos::syscall::SyscallStep;
use fe_rtos::task_state::TaskState;

/// A running kernel with two adopted tasks, 2 and 3.
fn kernel() -> Kernel {
    let mut k = start_scheduler(Arch::Arm, 0x1000, 0x2000, 0x4000);
    k.kernel();
    k.add_task(64, 0x3000, 0).unwrap();
    k.add_task(64, 0x3000, 0).unwrap();
    k.kernel();
    k
}

#[test]
fn message_round_trip() {
    let msg = Message::from(vec![1, 2, 3]);
    assert!(msg.valid);
    assert_eq!(msg.into_vec(), vec![1, 2, 3]);
    let null = get_null_message();
    assert!(!null.valid);
    assert!(null.data.is_empty());
}

#[test]
fn topic_names_must_not_hold_a_zero_byte() {
    assert!(Publisher::new("ticks").is_ok());
    assert!(Publisher::new("").is_ok());
    assert_eq!(Publisher::new("ti\0cks").err(), Some("Invalid topic string"));
    assert_eq!(Publisher::new("\0").err(), Some("Invalid topic string"));
    let mut k = kernel();
    let mut reg = TopicRegistry::new();
    assert_eq!(Subscriber::new(&mut k, &mut reg, "a\0").err(), Some("Invalid topic string"));
    assert_eq!(k.sem_count(0), None);
}

#[test]
fn publisher_keeps_the_bytes_of_the_name() {
    let publisher = Publisher::new("uart/rx").unwrap();
    assert_eq!(publisher.topic.as_bytes(), b"uart/rx");
}

#[test]
fn a_subscriber_reads_what_is_published_after_it_subscribed() {
    let mut k = kernel();
    let mut reg = TopicRegistry::new();
    let mut publisher = Publisher::new("news").unwrap();
    k.set_cur_task(2);
    // Nobody listens yet: the message is lost.
    assert_eq!(publisher.publish(&mut k, &mut reg, vec![0]), Ok(()));
    k.set_cur_task(3);
    let mut subscriber = Subscriber::new(&mut k, &mut reg, "news").unwrap();
    assert_eq!(subscriber.get_message_nonblocking(&mut k, &mut reg), None);
    k.set_cur_task(2);
    assert_eq!(publisher.publish(&mut k, &mut reg, vec![1, 1]), Ok(()));
    assert_eq!(publisher.publish(&mut k, &mut reg, vec![2]), Ok(()));
    k.set_cur_task(3);
    assert_eq!(subscriber.get_message(&mut k, &mut reg), Delivery::Message(vec![1, 1]));
    assert_eq!(subscriber.get_message_nonblocking(&mut k, &mut reg), Some(vec![2]));
    assert_eq!(subscriber.get_message_nonblocking(&mut k, &mut reg), None);
}

#[test]
fn the_semaphore_counts_the_unread_messages() {
    let mut k = kernel();
    let mut reg = TopicRegistry::new();
    k.set_cur_task(3);
    let subscriber = Subscriber::new(&mut k, &mut reg, "t").unwrap();
    let lock = reg.get_subscriber_lock(3, &b"t".to_vec()).unwrap();
    assert_eq!(k.sem_count(lock), Some(0));
    for n in 1..=3 {
        assert_eq!(sys_ipc_publish(&mut k, &mut reg, &subscriber.topic, vec![n as u8]), 0);
        assert_eq!(k.sem_count(lock), Some(n));
    }
    assert_eq!(
        sys_ipc_get_message(&mut k, &mut reg, &subscriber.topic, false),
        Delivery::Message(vec![1])
    );
    assert_eq!(k.sem_count(lock), Some(2));
}

#[test]
fn a_waiting_reader_is_told_to_block_and_woken_by_a_publication() {
    let mut k = kernel();
    let mut reg = TopicRegistry::new();
    let mut publisher = Publisher::new("t").unwrap();
    k.set_cur_task(3);
    let mut subscriber = Subscriber::new(&mut k, &mut reg, "t").unwrap();
    let lock = match subscriber.get_message(&mut k, &mut reg) {
        Delivery::Block(lock) => lock,
        other => panic!("not told to block: {:?}", other),
    };
    assert_eq!(k.sys_block(lock), SyscallStep::Done);
    assert_eq!(k.task_state(3), Some(TaskState::Blocking(lock)));
    k.set_cur_task(2);
    publisher.publish(&mut k, &mut reg, vec![7]).unwrap();
    k.set_cur_task(1);
    k.kernel();
    assert_eq!(k.task_state(3), Some(TaskState::Runnable));
    k.set_cur_task(3);
    assert_eq!(subscriber.get_message(&mut k, &mut reg), Delivery::Message(vec![7]));
}

#[test]
fn every_subscriber_gets_every_message() {
    let mut k = kernel();
    let mut reg = TopicRegistry::new();
    k.set_cur_task(2);
    let mut first = Subscriber::new(&mut k, &mut reg, "t").unwrap();
    k.set_cur_task(3);
    let mut second = Subscriber::new(&mut k, &mut reg, "t").unwrap();
    let mut publisher = Publisher::new("t").unwrap();
    publisher.publish(&mut k, &mut reg, vec![1]).unwrap();
    publisher.publish(&mut k, &mut reg, vec![2]).unwrap();
    k.set_cur_task(2);
    assert_eq!(first.get_message_nonblocking(&mut k, &mut reg), Some(vec![1]));
    k.set_cur_task(3);
    assert_eq!(second.get_message_nonblocking(&mut k, &mut reg), Some(vec![1]));
    assert_eq!(second.get_message_nonblocking(&mut k, &mut reg), Some(vec![2]));
    assert_eq!(second.get_message_nonblocking(&mut k, &mut reg), None);
    k.set_cur_task(2);
    assert_eq!(first.get_message_nonblocking(&mut k, &mut reg), Some(vec![2]));
}

#[test]
fn topics_are_kept_apart() {
    let mut k = kernel();
    let mut reg = TopicRegistry::new();
    k.set_cur_task(2);
    let mut a = Subscriber::new(&mut k, &mut reg, "a").unwrap();
    let mut b = Subscriber::new(&mut k, &mut reg, "b").unwrap();
    Publisher::new("b").unwrap().publish(&mut k, &mut reg, vec![9]).unwrap();
    assert_eq!(a.get_message_nonblocking(&mut k, &mut reg), None);
    assert_eq!(b.get_message_nonblocking(&mut k, &mut reg), Some(vec![9]));
}

#[test]
fn unsubscribe_reports_whether_there_was_a_subscription() {
    let mut k = kernel();
    let mut reg = TopicRegistry::new();
    k.set_cur_task(2);
    let subscriber = Subscriber::new(&mut k, &mut reg, "t").unwrap();
    let other = Publisher::new("u").unwrap();
    assert_eq!(sys_ipc_unsubscribe(&k, &mut reg, &other.topic), 1);
    k.set_cur_task(3);
    assert_eq!(sys_ipc_unsubscribe(&k, &mut reg, &subscriber.topic), 1);
    k.set_cur_task(2);
    assert_eq!(sys_ipc_unsubscribe(&k, &mut reg, &subscriber.topic), 0);
    assert_eq!(sys_ipc_unsubscribe(&k, &mut reg, &subscriber.topic), 1);
    assert_eq!(
        sys_ipc_get_message(&mut k, &mut reg, &subscriber.topic, true),
        Delivery::Nothing
    );
}

#[test]
fn subscribing_again_starts_afresh() {
    let mut k = kernel();
    let mut reg = TopicRegistry::new();
    let name = Publisher::new("t").unwrap();
    k.set_cur_task(2);
    assert_eq!(sys_ipc_subscribe(&mut k, &mut reg, &name.topic), 0);
    sys_ipc_publish(&mut k, &mut reg, &name.topic, vec![1]);
    assert_eq!(sys_ipc_subscribe(&mut k, &mut reg, &name.topic), 0);
    assert_eq!(
        sys_ipc_get_message(&mut k, &mut reg, &name.topic, false),
        Delivery::Nothing
    );
    sys_ipc_publish(&mut k, &mut reg, &name.topic, vec![2]);
    assert_eq!(
        sys_ipc_get_message(&mut k, &mut reg, &name.topic, false),
        Delivery::Message(vec![2])
    );
}

#[test]
fn a_task_that_exits_leaves_all_its_topics() {
    let mut k = kernel();
    let mut reg = TopicRegistry::new();
    k.set_cur_task(2);
    let a = Subscriber::new(&mut k, &mut reg, "a").unwrap();
    let b = Subscriber::new(&mut k, &mut reg, "b").unwrap();
    k.set_cur_task(3);
    let _c = Subscriber::new(&mut k, &mut reg, "a").unwrap();
    reg.unsubscribe_all(2);
    assert_eq!(reg.get_subscriber_lock(2, &b"a".to_vec()), None);
    assert_eq!(reg.get_subscriber_lock(2, &b"b".to_vec()), None);
    assert!(reg.get_subscriber_lock(3, &b"a".to_vec()).is_some());
    a.unsubscribe(&k, &mut reg);
    b.unsubscribe(&k, &mut reg);
    assert_eq!(reg.get_subscriber_lock(3, &b"a".to_vec()), None);
}

#[test]
fn a_topic_on_its_own() {
    let mut k = kernel();
    let mut topic = Topic::new(b"t".to_vec());
    let lock = k.sem_new(0);
    topic.add_message(&mut k, &vec![1]);
    topic.add_subscriber(5, lock);
    assert_eq!(topic.subscriber_lock(5), Some(lock));
    assert_eq!(topic.subscriber_lock(6), None);
    assert_eq!(topic.read(5), None);
    topic.add_message(&mut k, &vec![2]);
    assert_eq!(k.sem_count(lock), Some(1));
    assert_eq!(topic.read(5), Some(vec![2]));
    assert_eq!(topic.read(6), None);
    assert_eq!(
        topic.remove_subscriber(5),
        Some(Subscription { pid: 5, lock, next: 2 })
    );
    assert_eq!(topic.remove_subscriber(5), None);
    let mut reg = TopicRegistry::new();
    reg.publish_to_topic(&mut k, &b"none".to_vec(), &vec![1]);
    assert_eq!(reg.get_ipc_message(5, &b"none".to_vec()), None);
    assert_eq!(reg.unsubscribe_from_topic(5, &b"none".to_vec()), None);
    reg.subscribe_to_topic(&mut k, &b"some".to_vec());
    assert!(reg.get_subscriber_lock(k.cur_pid(), &b"some".to_vec()).is_some());
}

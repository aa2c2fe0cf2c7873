use hwndloop::command::CommandQueue;
use hwndloop::flush::FlushRequests;
use hwndloop::worker::{Action, MessageTags, Worker};
use std::collections::VecDeque;

const WM_USER: u32 = 0x0400;

fn tags() -> MessageTags {
    MessageTags { init: 0xC001, command: 0xC002, flush: 0xC003 }
}

#[derive(Debug)]
enum TestCommand {
    Push(i32),
    Pop,
}

/// A single-threaded stand-in for the native receiver and the worker thread,
/// driven by the library's decisions.
struct Harness {
    tags: MessageTags,
    worker: Worker,
    receiver: VecDeque<(u32, usize)>,
    queue: CommandQueue<TestCommand>,
    flushes: FlushRequests<u32>,
    store: VecDeque<i32>,
    replies: Vec<Option<i32>>,
    released: Vec<u32>,
    events: Vec<String>,
}

impl Harness {
    fn new() -> Harness {
        let tags = tags();
        let mut h = Harness {
            worker: Worker::new(),
            receiver: VecDeque::new(),
            queue: CommandQueue::new(),
            flushes: FlushRequests::new(),
            store: VecDeque::new(),
            replies: Vec::new(),
            released: Vec::new(),
            events: Vec::new(),
            tags,
        };
        let init = h.tags.init;
        h.receiver.push_back((init, 0));
        match h.worker.begin::<TestCommand, u32>() {
            Action::SetUp => h.events.push("set_up".to_string()),
            other => panic!("unexpected {:?}", other),
        }
        h.drain();
        h
    }

    fn send_command(&mut self, cmd: TestCommand) {
        self.queue.submit(cmd);
        self.receiver.push_back((self.tags.command, 0));
    }

    fn post(&mut self, msg: u32, w: usize) {
        self.receiver.push_back((msg, w));
    }

    fn flush(&mut self, signal: u32) {
        self.flushes.request(signal);
        self.receiver.push_back((self.tags.flush, 0));
        self.drain();
    }

    fn terminate(&mut self) {
        self.queue.submit_terminate();
        self.receiver.push_back((self.tags.command, 0));
        self.drain();
        match self.worker.shut_down::<TestCommand, u32>() {
            Action::TearDown => self.events.push("tear_down".to_string()),
            Action::Ignore => {},
            other => panic!("unexpected {:?}", other),
        }
    }

    fn drain(&mut self) {
        while let Some((msg, w)) = self.receiver.pop_front() {
            let kind = self.tags.classify(msg);
            match self.worker.on_message(kind, &mut self.queue, &mut self.flushes) {
                Action::Handshake => self.events.push("handshake".to_string()),
                Action::HandleCommand(TestCommand::Push(i)) => self.store.push_back(i),
                Action::HandleCommand(TestCommand::Pop) => {
                    let v = self.store.pop_front();
                    self.replies.push(v);
                },
                Action::CompleteFlush(s) => self.released.push(s),
                Action::Dispatch => {
                    if msg == WM_USER {
                        self.store.push_back(w as i32);
                    }
                },
                Action::Exit => self.events.push("exit".to_string()),
                Action::Ignore => {},
                other => panic!("unexpected {:?}", other),
            }
        }
    }
}

#[test]
fn smoke() {
    let mut h = Harness::new();
    h.send_command(TestCommand::Push(1));
    h.send_command(TestCommand::Pop);
    h.drain();
    assert_eq!(vec![Some(1)], h.replies);
}

#[test]
fn winmsg() {
    let mut h = Harness::new();
    h.post(WM_USER, 123);
    h.flush(7);
    assert_eq!(vec![7], h.released);
    h.send_command(TestCommand::Pop);
    h.drain();
    assert_eq!(vec![Some(123)], h.replies);
}

#[test]
fn ordering() {
    let mut h = Harness::new();
    let (begin, end) = (0i32, 65536i32);
    for i in begin..end {
        if i % 2 == 0 {
            h.send_command(TestCommand::Push(i));
        } else {
            h.post(WM_USER, i as usize);
        }
    }
    for _ in begin..end {
        h.send_command(TestCommand::Pop);
    }
    h.drain();
    let expected: Vec<Option<i32>> = (begin..end).map(Some).collect();
    assert_eq!(expected, h.replies);
}

#[test]
fn commands_handled_in_submission_order() {
    let mut h = Harness::new();
    for i in 0..10 {
        h.send_command(TestCommand::Push(i));
    }
    for _ in 0..11 {
        h.send_command(TestCommand::Pop);
    }
    h.drain();
    let mut expected: Vec<Option<i32>> = (0..10).map(Some).collect();
    expected.push(None);
    assert_eq!(expected, h.replies);
}

#[test]
fn no_commands_no_replies() {
    let mut h = Harness::new();
    h.drain();
    assert!(h.replies.is_empty());
    assert!(h.store.is_empty());
}

#[test]
fn command_message_command_keeps_order() {
    let mut h = Harness::new();
    h.send_command(TestCommand::Push(1));
    h.post(WM_USER, 2);
    h.send_command(TestCommand::Push(3));
    h.drain();
    assert_eq!(vec![1, 2, 3], h.store.iter().copied().collect::<Vec<i32>>());
}

#[test]
fn flush_returns_after_prior_commands() {
    let mut h = Harness::new();
    for i in 0..5 {
        h.send_command(TestCommand::Push(i));
    }
    h.flushes.request(1);
    h.receiver.push_back((h.tags.flush, 0));
    // Run only up to the flush release.
    while h.released.is_empty() {
        let (msg, w) = h.receiver.pop_front().unwrap();
        let kind = h.tags.classify(msg);
        match h.worker.on_message(kind, &mut h.queue, &mut h.flushes) {
            Action::HandleCommand(TestCommand::Push(i)) => h.store.push_back(i),
            Action::CompleteFlush(s) => h.released.push(s),
            Action::Dispatch => h.store.push_back(w as i32),
            _ => {},
        }
    }
    assert_eq!(vec![0, 1, 2, 3, 4], h.store.iter().copied().collect::<Vec<i32>>());
}

#[test]
fn flush_with_nothing_pending() {
    let mut h = Harness::new();
    h.flush(3);
    assert_eq!(vec![3], h.released);
}

#[test]
fn concurrent_flushes_release_oldest_first() {
    let mut h = Harness::new();
    h.flushes.request(1);
    h.flushes.request(2);
    h.receiver.push_back((h.tags.flush, 0));
    h.receiver.push_back((h.tags.flush, 0));
    h.drain();
    assert_eq!(vec![1, 2], h.released);
}

#[test]
fn setup_first_teardown_last_once() {
    let mut h = Harness::new();
    h.send_command(TestCommand::Push(5));
    h.drain();
    h.terminate();
    h.terminate();
    h.send_command(TestCommand::Pop);
    h.post(WM_USER, 9);
    h.drain();
    assert_eq!(
        vec!["set_up", "handshake", "exit", "tear_down"],
        h.events.iter().map(|s| s.as_str()).collect::<Vec<&str>>()
    );
    assert!(h.replies.is_empty());
    assert_eq!(vec![5], h.store.iter().copied().collect::<Vec<i32>>());
    assert!(!h.worker.is_running());
}

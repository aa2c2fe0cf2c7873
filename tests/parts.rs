use hwndloop::command::{CommandQueue, HwndLoopCommand};
use hwndloop::flush::FlushRequests;
use hwndloop::termination::TerminationSlot;
use hwndloop::util::to_utf16;
use hwndloop::worker::{Action, MessageTags, Wake, Worker};

#[test]
fn utf16_ascii_gets_terminator() {
    assert_eq!(vec![97u16, 98, 0], to_utf16("ab"));
}

#[test]
fn utf16_empty_is_terminator_only() {
    assert_eq!(vec![0u16], to_utf16(""));
}

#[test]
fn utf16_basic_plane_and_surrogates() {
    assert_eq!(vec![0x00E9u16, 0], to_utf16("\u{e9}"));
    assert_eq!(vec![0xD83Du16, 0xDE00, 0], to_utf16("\u{1F600}"));
    assert_eq!(vec![0xFFFFu16, 0xDBFF, 0xDFFF, 0], to_utf16("\u{FFFF}\u{10FFFF}"));
}

#[test]
fn utf16_matches_std() {
    let s = "RawInputRS1234 \u{3b1}\u{1F600}";
    let expected: Vec<u16> = s.encode_utf16().chain(Some(0)).collect();
    assert_eq!(expected, to_utf16(s));
}

#[test]
fn classify_reserved_and_other() {
    let t = MessageTags { init: 10, command: 11, flush: 12 };
    assert_eq!(Wake::Init, t.classify(10));
    assert_eq!(Wake::Command, t.classify(11));
    assert_eq!(Wake::Flush, t.classify(12));
    assert_eq!(Wake::Other, t.classify(0x0400));
}

#[test]
fn command_queue_is_fifo() {
    let mut q: CommandQueue<i32> = CommandQueue::new();
    assert!(q.is_empty());
    q.submit(1);
    q.submit_terminate();
    q.push(HwndLoopCommand::UserCommand(3));
    assert_eq!(3, q.len());
    assert!(matches!(q.pop(), Some(HwndLoopCommand::UserCommand(1))));
    assert!(matches!(q.pop(), Some(HwndLoopCommand::Terminate)));
    assert!(matches!(q.pop(), Some(HwndLoopCommand::UserCommand(3))));
    assert!(q.pop().is_none());
    assert!(q.pop().is_none());
}

#[test]
fn flush_requests_oldest_first() {
    let mut f: FlushRequests<&str> = FlushRequests::new();
    assert_eq!(None, f.take_oldest());
    f.request("a");
    f.request("b");
    assert_eq!(2, f.len());
    assert_eq!(Some("a"), f.take_oldest());
    assert_eq!(Some("b"), f.take_oldest());
    assert_eq!(None, f.take_oldest());
}

#[test]
fn termination_claimed_once() {
    let mut s = TerminationSlot::new(42u32);
    assert!(!s.is_terminated());
    assert_eq!(Some(42), s.claim());
    assert!(s.is_terminated());
    assert_eq!(None, s.claim());
    assert_eq!(None, s.claim());
}

#[test]
fn worker_ignores_messages_before_begin() {
    let mut w = Worker::new();
    let mut q: CommandQueue<i32> = CommandQueue::new();
    let mut f: FlushRequests<u8> = FlushRequests::new();
    q.submit(1);
    assert!(!w.is_running());
    assert!(matches!(w.on_message(Wake::Command, &mut q, &mut f), Action::Ignore));
    assert_eq!(1, q.len());
}

#[test]
fn worker_lifecycle() {
    let mut w = Worker::new();
    let mut q: CommandQueue<i32> = CommandQueue::new();
    let mut f: FlushRequests<u8> = FlushRequests::new();
    assert!(matches!(w.begin::<i32, u8>(), Action::SetUp));
    assert!(matches!(w.begin::<i32, u8>(), Action::Ignore));
    assert!(w.is_running());
    assert!(matches!(w.on_message(Wake::Other, &mut q, &mut f), Action::Dispatch));
    assert!(matches!(w.on_message(Wake::Init, &mut q, &mut f), Action::Handshake));
    assert!(matches!(w.on_message(Wake::Init, &mut q, &mut f), Action::Ignore));
    assert!(matches!(w.on_message(Wake::Command, &mut q, &mut f), Action::Ignore));
    assert!(matches!(w.on_message(Wake::Flush, &mut q, &mut f), Action::Ignore));
    q.submit(7);
    f.request(9);
    assert!(matches!(w.on_message(Wake::Command, &mut q, &mut f), Action::HandleCommand(7)));
    assert!(matches!(w.on_message(Wake::Flush, &mut q, &mut f), Action::CompleteFlush(9)));
    assert!(matches!(w.shut_down::<i32, u8>(), Action::Ignore));
    q.submit_terminate();
    q.submit(8);
    assert!(matches!(w.on_message(Wake::Command, &mut q, &mut f), Action::Exit));
    assert!(!w.is_running());
    assert!(matches!(w.on_message(Wake::Command, &mut q, &mut f), Action::Ignore));
    assert!(matches!(w.on_message(Wake::Other, &mut q, &mut f), Action::Ignore));
    assert_eq!(1, q.len());
    assert!(matches!(w.shut_down::<i32, u8>(), Action::TearDown));
    assert!(matches!(w.shut_down::<i32, u8>(), Action::Ignore));
}

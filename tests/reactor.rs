use sunflower::reactor::{
    after_written, read_step, Action, ConnEvent, ConnTable, Interest, ReadResult, ReadStep, Readiness, WriteStep,
    CHUNK,
};

fn readable() -> Readiness {
    Readiness { readable: true, writable: false, hup: false, error: false }
}

fn writable() -> Readiness {
    Readiness { readable: false, writable: true, hup: false, error: false }
}

#[test]
fn tokens_are_fresh_and_distinct() {
    let mut tab = ConnTable::new();
    let a = tab.accept().unwrap();
    let b = tab.accept().unwrap();
    assert_eq!(a, 5);
    assert_eq!(b, 6);
    assert!(tab.remove(a));
    let c = tab.accept().unwrap();
    assert_eq!(c, 7);
    assert!(!tab.contains(a));
    assert!(tab.contains(b) && tab.contains(c));
    assert_eq!(tab.len(), 2);
}

#[test]
fn exhausted_counter_gives_no_token() {
    let mut tab = ConnTable::new();
    tab.token = usize::MAX;
    assert_eq!(tab.accept(), None);
}

#[test]
fn zero_length_read_removes_once() {
    let mut tab = ConnTable::new();
    let t = tab.accept().unwrap();
    assert_eq!(tab.on_ready(t, readable()), Action::Read);
    assert_eq!(read_step(ReadResult::Data(0)), ReadStep::Close);
    assert_eq!(tab.after_read(t, true), Action::Remove);
    assert!(!tab.contains(t));
    assert_eq!(tab.on_ready(t, readable()), Action::Ignore);
    assert_eq!(tab.after_read(t, true), Action::Ignore);
    assert_eq!(tab.after_write(t, WriteStep::Close), Action::Ignore);
    assert!(!tab.remove(t));
}

#[test]
fn hang_up_removes_at_once() {
    let mut tab = ConnTable::new();
    let t = tab.accept().unwrap();
    let hup = Readiness { readable: true, writable: false, hup: true, error: false };
    assert_eq!(tab.on_ready(t, hup), Action::Remove);
    assert!(!tab.contains(t));
    assert_eq!(tab.on_ready(t, hup), Action::Ignore);
}

#[test]
fn cycle_runs_read_job_write_in_order() {
    let mut tab = ConnTable::new();
    let t = tab.accept().unwrap();
    assert_eq!(tab.on_ready(t, readable()), Action::Read);
    assert_eq!(tab.after_read(t, false), Action::Dispatch);
    // A second read while the job runs starts nothing.
    assert_eq!(tab.on_ready(t, readable()), Action::Ignore);
    assert_eq!(tab.after_read(t, false), Action::Ignore);
    assert_eq!(tab.on_channel(ConnEvent::Read(t)), None);
    assert_eq!(tab.on_channel(ConnEvent::Write(t)), Some((t, Interest::Writable)));
    assert_eq!(tab.after_read(t, false), Action::Ignore);
    assert_eq!(tab.on_ready(t, writable()), Action::Write);
    assert_eq!(tab.after_write(t, WriteStep::Partial), Action::Rearm);
    assert_eq!(tab.on_ready(t, writable()), Action::Write);
    assert_eq!(tab.after_write(t, WriteStep::Sent), Action::Ignore);
    assert_eq!(tab.on_channel(ConnEvent::Read(t)), Some((t, Interest::Readable)));
    assert_eq!(tab.on_ready(t, readable()), Action::Read);
    assert_eq!(tab.after_read(t, false), Action::Dispatch);
}

#[test]
fn events_for_removed_connections_are_ignored() {
    let mut tab = ConnTable::new();
    let t = tab.accept().unwrap();
    assert_eq!(tab.after_read(t, false), Action::Dispatch);
    assert!(tab.remove(t));
    assert_eq!(tab.on_channel(ConnEvent::Write(t)), None);
    assert_eq!(tab.on_channel(ConnEvent::Read(99)), None);
}

#[test]
fn failed_write_closes() {
    let mut tab = ConnTable::new();
    let t = tab.accept().unwrap();
    tab.after_read(t, false);
    tab.on_channel(ConnEvent::Write(t));
    assert_eq!(tab.after_write(t, WriteStep::Close), Action::Remove);
    assert!(!tab.contains(t));
}

#[test]
fn read_steps() {
    assert_eq!(read_step(ReadResult::Data(CHUNK)), ReadStep::Continue);
    assert_eq!(read_step(ReadResult::Data(10)), ReadStep::Stop);
    assert_eq!(read_step(ReadResult::WouldBlock), ReadStep::Stop);
    assert_eq!(read_step(ReadResult::Failed), ReadStep::Close);
}

#[test]
fn write_steps_keep_unsent_bytes() {
    let mut w = b"abcdef".to_vec();
    assert_eq!(after_written(&mut w, None), WriteStep::Close);
    assert_eq!(w, b"abcdef".to_vec());
    assert_eq!(after_written(&mut w, Some(0)), WriteStep::Close);
    assert_eq!(w, b"abcdef".to_vec());
    assert_eq!(after_written(&mut w, Some(4)), WriteStep::Partial);
    assert_eq!(w, b"ef".to_vec());
    assert_eq!(after_written(&mut w, Some(2)), WriteStep::Sent);
    assert!(w.is_empty());
}

use wineshm::supervise::{Look, Seen, Supervisor};
use wineshm::{Duration, Note, Page};

fn a_page(name: &str) -> Page {
    Page {
        name: name.to_string(),
        bytes: 4,
    }
}

fn ms(n: u64) -> Duration {
    Duration::from_millis(n)
}

#[test]
fn a_heartbeat_that_was_not_handed_over_is_refused_by_name() {
    let why = Supervisor::start(vec![a_page("a")], "b", Duration::from_secs(1), 7)
        .expect_err("refused");
    assert_eq!(why, "b is not one of the pages handed over");
}

#[test]
fn the_note_is_written_in_this_processs_name() {
    let watching = Supervisor::start(vec![a_page("a"), a_page("b")], "b", ms(1000), 4242)
        .expect("started");
    assert!(!watching.is_finished());
    assert_eq!(watching.heartbeat(), &a_page("b"));
    let note = Note::parse(watching.note()).expect("a note");
    assert_eq!(note.pid, 4242);
    assert_eq!(note.pages.len(), 2);
    assert!(note.is_understood());
}

#[test]
fn a_block_being_written_reads_as_writing_then_quiet() {
    let mut watching = Supervisor::start(vec![a_page("a")], "a", Duration::from_secs(60), 1)
        .expect("started");
    let look = watching.look(Some(&[7, 7, 7, 7]), ms(10), ms(10));
    assert_eq!(look.seen, Seen::Writing);
    assert!(!look.tidy);
    let look = watching.look(Some(&[7, 7, 7, 7]), ms(10), ms(10));
    assert_eq!(look.seen, Seen::Quiet);
}

#[test]
fn silence_asks_for_everything_to_go_and_says_so_once() {
    let mut watching = Supervisor::start(vec![a_page("a"), a_page("b")], "a", Duration::zero(), 1)
        .expect("started");
    assert_eq!(
        watching.look(Some(&[3, 3, 3, 3]), ms(1), ms(1)).seen,
        Seen::Writing
    );
    assert_eq!(
        watching.look(Some(&[3, 3, 3, 3]), ms(1), ms(1)),
        Look {
            seen: Seen::WriterGone,
            beat: false,
            tidy: true
        }
    );
    assert!(watching.is_finished());
    assert_eq!(
        watching.look(Some(&[4, 4, 4, 4]), ms(1), Duration::from_secs(9)),
        Look {
            seen: Seen::WriterGone,
            beat: false,
            tidy: false
        }
    );
    assert_eq!(watching.pages().len(), 2);
}

#[test]
fn a_read_that_failed_counts_as_nothing_moving() {
    let mut watching = Supervisor::start(vec![a_page("a")], "a", Duration::from_secs(30), 1)
        .expect("started");
    for _ in 0..500 {
        assert_ne!(watching.look(None, ms(16), ms(16)).seen, Seen::WriterGone);
    }
    assert_eq!(watching.quiet_for(), ms(8000));
}

#[test]
fn the_note_is_rewritten_once_a_beat() {
    let mut watching = Supervisor::start(vec![a_page("a")], "a", Duration::from_secs(30), 1)
        .expect("started");
    assert!(!watching.look(None, ms(16), ms(1999)).beat);
    assert!(watching.look(None, ms(16), ms(2000)).beat);
}

#[test]
fn once_the_writer_is_gone_every_look_says_so_and_tidies_only_once() {
    let mut watching = Supervisor::start(vec![a_page("a")], "a", ms(100), 1).expect("started");
    assert!(!watching.is_finished());
    let mut tidies = 0;
    let mut gone_at = None;
    for i in 0..20 {
        let fresh: &[u8] = if i < 3 { &[i as u8, 1, 2, 3] } else { &[2, 1, 2, 3] };
        let look = watching.look(Some(fresh), ms(30), ms(30));
        if look.tidy {
            tidies += 1;
            assert_eq!(look.seen, Seen::WriterGone);
        }
        if look.seen == Seen::WriterGone && gone_at.is_none() {
            gone_at = Some(i);
        }
        if let Some(at) = gone_at {
            assert!(watching.is_finished());
            if i > at {
                assert_eq!(
                    look,
                    Look {
                        seen: Seen::WriterGone,
                        beat: false,
                        tidy: false
                    }
                );
            }
        } else {
            assert!(!watching.is_finished());
        }
    }
    assert_eq!(tidies, 1);
    assert!(gone_at.is_some());
}

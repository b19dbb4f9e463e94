use vevor_lcd::frame::build_frame;
use vevor_lcd::temps::Temps;
use vevor_lcd::writer::{WriterAction, WriterEvent, WriterLoop, MAX_CONSECUTIVE_WRITE_ERRORS};

#[derive(Clone, Debug, PartialEq)]
enum Act {
    Sample,
    Write(Vec<u8>),
    Wait(u64),
}

/// An error that can be neither copied nor compared, as those of writes are.
#[derive(Debug)]
struct Failure(usize);

fn temps(i: usize) -> Temps {
    Temps {
        cpu_c: 40 + i as u8,
        gpu_c: 70 + i as u8,
    }
}

fn local(i: usize) -> Option<(i32, i32)> {
    Some((i as i32, 30 + i as i32))
}

fn frame(i: usize) -> Vec<u8> {
    build_frame(40 + i as u8, 70 + i as u8, i as u8, 30 + i as u8).to_vec()
}

/// The actions of a loop whose writes have these outcomes, and the loop at the
/// end of them, or the error that it ended with. The write of the round `i` fails
/// with `Failure(i)`.
fn run(interval_ms: u64, outcomes: &[bool]) -> (Vec<Act>, Result<WriterLoop, Failure>) {
    let mut writer = WriterLoop::new(interval_ms);
    let mut acts = Vec::new();
    let mut round = 0;
    loop {
        let event = match writer.action() {
            WriterAction::Sample => {
                if round == outcomes.len() {
                    return (acts, Ok(writer));
                }
                acts.push(Act::Sample);
                WriterEvent::Sampled(temps(round), local(round))
            }
            WriterAction::Write(frame) => {
                acts.push(Act::Write(frame.to_vec()));
                let written = if outcomes[round] { Ok(()) } else { Err(Failure(round)) };
                round += 1;
                WriterEvent::Written(written)
            }
            WriterAction::Wait(ms) => {
                acts.push(Act::Wait(ms));
                WriterEvent::Waited
            }
        };
        match writer.step(event) {
            Ok(next) => writer = next,
            Err(e) => return (acts, Err(e)),
        }
    }
}

#[test]
fn rounds_look_write_and_wait() {
    let (acts, _) = run(200, &[true, false, true]);
    assert_eq!(
        acts,
        vec![
            Act::Sample,
            Act::Write(frame(0)),
            Act::Wait(200),
            Act::Sample,
            Act::Write(frame(1)),
            Act::Wait(200),
            Act::Sample,
            Act::Write(frame(2)),
            Act::Wait(200),
        ]
    );
}

#[test]
fn five_failures_in_a_row_end_the_loop() {
    let (acts, end) = run(7, &[false; 9]);
    assert_eq!(acts.len(), 14);
    for i in 0..5 {
        assert_eq!(acts[3 * i], Act::Sample);
        assert_eq!(acts[3 * i + 1], Act::Write(frame(i)));
        if i < 4 {
            assert_eq!(acts[3 * i + 2], Act::Wait(7));
        }
    }
    assert_eq!(MAX_CONSECUTIVE_WRITE_ERRORS, 5);
    assert!(matches!(end, Err(Failure(4))));
}

#[test]
fn ends_with_the_error_of_the_last_write() {
    let (_, end) = run(7, &[false, false, true, false, false, false, false, false, true]);
    assert!(matches!(end, Err(Failure(7))));
    let (_, end) = run(7, &[false, false, false, false]);
    match end {
        Ok(writer) => assert_eq!(writer.consecutive_errors, 4),
        Err(e) => panic!("ended with {e:?}"),
    }
}

#[test]
fn one_success_resets_the_count() {
    let mut outcomes = Vec::new();
    for _ in 0..3 {
        outcomes.extend([false, false, false, false, true]);
    }
    let (acts, end) = run(200, &outcomes);
    assert_eq!(acts.len(), 45);
    assert!(matches!(end, Ok(writer) if writer.consecutive_errors == 0));
}

#[test]
fn gives_up_exactly_after_five_failures() {
    for bits in 0..256u32 {
        let outcomes: Vec<bool> = (0..8).map(|i| bits & (1 << i) != 0).collect();
        let last = (5..=8).find(|n| outcomes[n - 5..*n].iter().all(|ok| !ok));
        let (acts, end) = run(200, &outcomes);
        match (last, end) {
            (Some(made), Err(Failure(i))) => {
                assert_eq!(i, made - 1);
                assert_eq!(acts.len(), 3 * made - 1);
            }
            (None, Ok(_)) => assert_eq!(acts.len(), 24),
            (last, _) => panic!("{outcomes:?} should end after {last:?}"),
        }
        for (j, act) in acts.iter().enumerate() {
            let expected = match j % 3 {
                0 => Act::Sample,
                1 => Act::Write(frame(j / 3)),
                _ => Act::Wait(200),
            };
            assert_eq!(*act, expected);
        }
    }
}

fn stepped(writer: WriterLoop, event: WriterEvent<Failure>) -> WriterLoop {
    match writer.step(event) {
        Ok(next) => next,
        Err(e) => panic!("ended with {e:?}"),
    }
}

#[test]
fn frame_without_a_clock() {
    let sampled = WriterEvent::Sampled(Temps { cpu_c: 61, gpu_c: 47 }, None);
    let writer = stepped(WriterLoop::new(200), sampled);
    match writer.action() {
        WriterAction::Write(frame) => assert_eq!(frame, build_frame(61, 47, 0, 0)),
        _ => panic!("no write"),
    }
}

#[test]
fn event_of_another_action_changes_nothing() {
    let mut writer = WriterLoop::new(200);
    for i in 0..9 {
        writer = stepped(writer, WriterEvent::Written(Err(Failure(i))));
        assert!(matches!(writer.action(), WriterAction::Sample));
        assert_eq!(writer.consecutive_errors, 0);
    }
    writer = stepped(writer, WriterEvent::Sampled(Temps::new(), None));
    writer = stepped(writer, WriterEvent::Waited);
    assert!(matches!(writer.action(), WriterAction::Write(_)));
}

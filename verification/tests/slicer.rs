use slice::{Slice, StreamSlicer};

fn feed(slicer: &mut StreamSlicer<String>, lines: &[&str]) -> Vec<Option<String>> {
    lines.iter().map(|line| slicer.push(line.to_string())).collect()
}

fn some(line: &str) -> Option<String> {
    Some(line.to_string())
}

fn finish(slicer: StreamSlicer<String>) -> Vec<String> {
    slicer.finish().into_iter().collect()
}

#[test]
fn lines_before_an_end_come_out_at_once() {
    let mut slicer = StreamSlicer::new(Slice { begin: 1, end: Some(3) });
    assert!(slicer.wants_line());
    assert_eq!(slicer.push("a".to_string()), None);
    assert!(slicer.wants_line());
    assert_eq!(slicer.push("b".to_string()), some("b"));
    assert!(slicer.wants_line());
    assert_eq!(slicer.push("c".to_string()), some("c"));
    assert!(!slicer.wants_line());
    assert_eq!(slicer.held(), 0);
    assert!(finish(slicer).is_empty());
}

#[test]
fn a_saturated_slicer_drops_what_it_is_fed() {
    let mut slicer = StreamSlicer::new(Slice { begin: 0, end: Some(1) });
    assert_eq!(feed(&mut slicer, &["a", "b", "c"]), vec![some("a"), None, None]);
    assert!(!slicer.wants_line());
    assert!(finish(slicer).is_empty());

    let mut slicer = StreamSlicer::new(Slice { begin: -2, end: Some(1) });
    assert_eq!(feed(&mut slicer, &["a", "b", "c", "d", "e"]), vec![None; 5]);
    assert!(!slicer.wants_line());
    assert!(finish(slicer).is_empty());
}

#[test]
fn a_slice_that_takes_nothing_reads_nothing() {
    let slicer: StreamSlicer<String> = StreamSlicer::new(Slice { begin: 2, end: Some(1) });
    assert!(!slicer.wants_line());
    let slicer: StreamSlicer<String> = StreamSlicer::new(Slice { begin: 0, end: Some(0) });
    assert!(!slicer.wants_line());
    let slicer: StreamSlicer<String> = StreamSlicer::new(Slice { begin: 3, end: Some(3) });
    assert!(!slicer.wants_line());
    let mut slicer: StreamSlicer<String> = StreamSlicer::new(Slice { begin: 5, end: Some(2) });
    assert_eq!(feed(&mut slicer, &["a", "b", "c", "d", "e", "f", "g"]), vec![None; 7]);
    assert!(finish(slicer).is_empty());
}

#[test]
fn a_trailing_slice_reads_its_window_past_the_end() {
    let mut slicer = StreamSlicer::new(Slice { begin: -2, end: Some(3) });
    for line in ["a", "b", "c", "d"].iter() {
        assert!(slicer.wants_line());
        assert_eq!(slicer.push(line.to_string()), None);
    }
    assert!(slicer.wants_line());
    assert_eq!(slicer.push("e".to_string()), None);
    assert!(!slicer.wants_line());
    assert!(finish(slicer).is_empty());

    let mut slicer = StreamSlicer::new(Slice { begin: -2, end: Some(3) });
    assert_eq!(feed(&mut slicer, &["a", "b", "c", "d"]), vec![None; 4]);
    assert_eq!(finish(slicer), vec!["c"]);
}

#[test]
fn an_open_slice_always_reads() {
    let mut slicer = StreamSlicer::new(Slice { begin: 2, end: None });
    for i in 0..100 {
        assert!(slicer.wants_line());
        let out = slicer.push(i.to_string());
        assert_eq!(out, if i < 2 { None } else { Some(i.to_string()) });
    }
    assert!(slicer.wants_line());
    assert!(finish(slicer).is_empty());
}

#[test]
fn a_negative_end_holds_lines_back() {
    let mut slicer = StreamSlicer::new(Slice { begin: 1, end: Some(-2) });
    assert_eq!(
        feed(&mut slicer, &["a", "b", "c", "d", "e"]),
        vec![None, None, None, some("b"), some("c")]
    );
    assert_eq!(slicer.held(), 2);
    assert!(slicer.wants_line());
    assert!(finish(slicer).is_empty());
}

#[test]
fn a_trailing_slice_gives_everything_at_the_end() {
    let mut slicer = StreamSlicer::new(Slice { begin: -3, end: None });
    assert_eq!(feed(&mut slicer, &["a", "b", "c", "d", "e"]), vec![None; 5]);
    assert_eq!(slicer.held(), 3);
    assert_eq!(finish(slicer), vec!["c", "d", "e"]);

    let mut slicer = StreamSlicer::new(Slice { begin: -3, end: Some(-1) });
    assert_eq!(feed(&mut slicer, &["a", "b", "c", "d", "e"]), vec![None; 5]);
    assert_eq!(finish(slicer), vec!["c", "d"]);

    let mut slicer = StreamSlicer::new(Slice { begin: -4, end: Some(3) });
    assert_eq!(feed(&mut slicer, &["a", "b", "c", "d", "e"]), vec![None; 5]);
    assert_eq!(finish(slicer), vec!["b", "c"]);
}

#[test]
fn a_window_wider_than_the_stream_holds_the_stream() {
    let mut slicer = StreamSlicer::new(Slice { begin: -10, end: None });
    assert_eq!(feed(&mut slicer, &["a", "b"]), vec![None; 2]);
    assert_eq!(slicer.held(), 2);
    assert_eq!(finish(slicer), vec!["a", "b"]);

    let mut slicer = StreamSlicer::new(Slice { begin: -10, end: Some(-1) });
    assert_eq!(feed(&mut slicer, &["a", "b"]), vec![None; 2]);
    assert_eq!(finish(slicer), vec!["a"]);

    let mut slicer = StreamSlicer::new(Slice { begin: -10, end: Some(-10) });
    assert_eq!(feed(&mut slicer, &["a", "b"]), vec![None; 2]);
    assert!(finish(slicer).is_empty());
}

#[test]
fn a_stream_that_ends_at_once() {
    for slice in [
        Slice { begin: 0, end: None },
        Slice { begin: 3, end: Some(-2) },
        Slice { begin: -3, end: Some(2) },
        Slice { begin: -3, end: Some(-2) },
    ]
    .iter()
    {
        let slicer: StreamSlicer<String> = StreamSlicer::new(*slice);
        assert_eq!(slicer.held(), 0);
        assert!(finish(slicer).is_empty());
    }
}

#[test]
fn the_window_stays_within_its_size() {
    let slices = [
        (Slice { begin: 0, end: None }, 0),
        (Slice { begin: 7, end: Some(900) }, 0),
        (Slice { begin: 7, end: Some(-5) }, 5),
        (Slice { begin: -9, end: None }, 9),
        (Slice { begin: -9, end: Some(-50) }, 9),
        (Slice { begin: -9, end: Some(400) }, 9),
    ];
    for (slice, size) in slices.iter() {
        let mut slicer = StreamSlicer::new(*slice);
        let mut most = 0;
        for i in 0..1000usize {
            slicer.push(i);
            assert!(slicer.held() <= *size);
            assert!(slicer.held() <= i + 1);
            most = most.max(slicer.held());
        }
        assert_eq!(most, *size);
    }
}

#[test]
fn what_comes_out_is_the_selection() {
    let lines: Vec<usize> = (0..12).collect();
    for begin in -14isize..15 {
        for end in -15isize..16 {
            let end = if end == -15 { None } else { Some(end) };
            let mut slicer = StreamSlicer::new(Slice { begin, end });
            let mut out: Vec<usize> = Vec::new();
            for line in lines.iter() {
                if !slicer.wants_line() {
                    break;
                }
                out.extend(slicer.push(*line));
            }
            if begin < 0 {
                assert!(out.is_empty());
            }
            out.extend(slicer.finish());

            let n = lines.len() as isize;
            let from = if begin < 0 { (n + begin).max(0) } else { begin.min(n) };
            let to = match end {
                None => n,
                Some(e) => {
                    if e < 0 {
                        (n + e).max(0)
                    } else {
                        e.min(n)
                    }
                }
            };
            let expected: Vec<usize> =
                if from < to { lines[from as usize..to as usize].to_vec() } else { Vec::new() };
            assert_eq!(out, expected);
        }
    }
}

#[test]
fn reading_stops_on_an_endless_stream() {
    let mut slicer = StreamSlicer::new(Slice { begin: 2, end: Some(5) });
    let mut source = 0usize..;
    let mut out = Vec::new();
    let mut read = 0;
    while slicer.wants_line() {
        let line = source.next().unwrap();
        read += 1;
        out.extend(slicer.push(line));
    }
    out.extend(slicer.finish());
    assert_eq!(out, vec![2, 3, 4]);
    assert_eq!(read, 5);

    let mut slicer = StreamSlicer::new(Slice { begin: -3, end: Some(4) });
    let mut source = 0usize..;
    let mut read = 0;
    while slicer.wants_line() {
        assert_eq!(slicer.push(source.next().unwrap()), None);
        read += 1;
    }
    assert_eq!(read, 7);
    assert!(slicer.finish().is_empty());
}

use async_stdin::advance;
use async_stdin::step;
use async_stdin::LineBuffer;
use async_stdin::ReadEvent;
use std::time::Duration;

fn runtime() -> tokio::runtime::Runtime {
    tokio::runtime::Builder::new_current_thread()
        .enable_time()
        .build()
        .unwrap()
}

#[test]
fn test_blocking_read() {
    let (tx, mut rx) = tokio::sync::mpsc::channel::<String>(10);

    // Send input to the channel as the worker loop would.
    let mut buf = LineBuffer::new();
    step(&mut buf, &tx, ReadEvent::Data(b"hello".to_vec()));
    step(&mut buf, &tx, ReadEvent::EndOfInput);

    let s = runtime().block_on(async move { rx.recv().await }).unwrap();
    assert_eq!(s, "hello");
}

#[test]
fn delivers_lines_in_order() {
    let (tx, mut rx) = tokio::sync::mpsc::channel::<String>(10);
    let mut buf = LineBuffer::new();
    let n = step(&mut buf, &tx, ReadEvent::Data(b"a\nb\nc\n".to_vec()));
    assert_eq!(n, 3);
    runtime().block_on(async move {
        assert_eq!(rx.recv().await.unwrap(), "a");
        assert_eq!(rx.recv().await.unwrap(), "b");
        assert_eq!(rx.recv().await.unwrap(), "c");
    });
}

#[test]
fn line_split_across_chunks() {
    let (tx, mut rx) = tokio::sync::mpsc::channel::<String>(10);
    let mut buf = LineBuffer::new();
    assert_eq!(step(&mut buf, &tx, ReadEvent::Data(b"he".to_vec())), 0);
    assert_eq!(step(&mut buf, &tx, ReadEvent::Data(b"llo\nwo".to_vec())), 1);
    assert_eq!(step(&mut buf, &tx, ReadEvent::Data(b"rld\n".to_vec())), 1);
    runtime().block_on(async move {
        assert_eq!(rx.recv().await.unwrap(), "hello");
        assert_eq!(rx.recv().await.unwrap(), "world");
    });
}

#[test]
fn crlf_delimiter_is_stripped() {
    let (tx, mut rx) = tokio::sync::mpsc::channel::<String>(10);
    let mut buf = LineBuffer::new();
    step(&mut buf, &tx, ReadEvent::Data(b"ab\r\ncd\n".to_vec()));
    runtime().block_on(async move {
        assert_eq!(rx.recv().await.unwrap(), "ab");
        assert_eq!(rx.recv().await.unwrap(), "cd");
    });
}

#[test]
fn lone_trailing_carriage_return_is_kept() {
    let (tx, mut rx) = tokio::sync::mpsc::channel::<String>(10);
    let mut buf = LineBuffer::new();
    step(&mut buf, &tx, ReadEvent::Data(b"x\r".to_vec()));
    step(&mut buf, &tx, ReadEvent::EndOfInput);
    let s = runtime().block_on(async move { rx.recv().await }).unwrap();
    assert_eq!(s, "x\r");
}

#[test]
fn empty_lines_are_delivered() {
    let (tx, mut rx) = tokio::sync::mpsc::channel::<String>(10);
    let mut buf = LineBuffer::new();
    let n = step(&mut buf, &tx, ReadEvent::Data(b"\n\n".to_vec()));
    assert_eq!(n, 2);
    runtime().block_on(async move {
        assert_eq!(rx.recv().await.unwrap(), "");
        assert_eq!(rx.recv().await.unwrap(), "");
    });
}

#[test]
fn invalid_utf8_line_is_skipped() {
    let (tx, mut rx) = tokio::sync::mpsc::channel::<String>(10);
    let mut buf = LineBuffer::new();
    let n = step(&mut buf, &tx, ReadEvent::Data(vec![0xFF, 0xFE, b'\n']));
    assert_eq!(n, 0);
    let n = step(&mut buf, &tx, ReadEvent::Data(b"ok\n".to_vec()));
    assert_eq!(n, 1);
    let s = runtime().block_on(async move { rx.recv().await }).unwrap();
    assert_eq!(s, "ok");
}

#[test]
fn multibyte_utf8_is_decoded() {
    let (tx, mut rx) = tokio::sync::mpsc::channel::<String>(10);
    let mut buf = LineBuffer::new();
    // Two bytes, one character: the decoding is not the raw bytes handed back.
    step(&mut buf, &tx, ReadEvent::Data(vec![0xC3, 0xA9, b'\n']));
    let s = runtime().block_on(async move { rx.recv().await }).unwrap();
    assert_eq!(s, "\u{e9}");
    assert_eq!(s.chars().count(), 1);
}

#[test]
fn advance_reports_lines_and_keeps_pending() {
    let mut buf = LineBuffer::new();
    let out = advance(&mut buf, ReadEvent::Data(b"a\nb".to_vec()));
    assert_eq!(out, vec![String::from("a")]);
    let out = advance(&mut buf, ReadEvent::Failed);
    assert_eq!(out.len(), 0);
    let out = advance(&mut buf, ReadEvent::EndOfInput);
    assert_eq!(out, vec![String::from("b")]);
    let out = advance(&mut buf, ReadEvent::EndOfInput);
    assert_eq!(out.len(), 0);
}

#[test]
fn backpressure_blocks_until_consumed() {
    let rt = runtime();
    let (tx, mut rx) = tokio::sync::mpsc::channel::<String>(1);
    rt.block_on(async move {
        let worker = tokio::task::spawn_blocking(move || {
            let mut buf = LineBuffer::new();
            step(&mut buf, &tx, ReadEvent::Data(b"one\ntwo\n".to_vec()))
        });
        // The enqueue of the second line cannot finish before the first is
        // consumed; both still arrive, in order.
        assert_eq!(rx.recv().await.unwrap(), "one");
        assert_eq!(rx.recv().await.unwrap(), "two");
        assert_eq!(worker.await.unwrap(), 2);
    });
}

#[test]
fn capacity_one_is_enforced() {
    let (tx, mut rx) = tokio::sync::mpsc::channel::<String>(1);
    let mut buf = LineBuffer::new();
    assert_eq!(step(&mut buf, &tx, ReadEvent::Data(b"one\n".to_vec())), 1);
    // The queue now holds its one undelivered line: another send is refused.
    assert!(tx.try_send(String::from("extra")).is_err());
    assert_eq!(rx.try_recv().unwrap(), "one");
    assert!(tx.try_send(String::from("extra")).is_ok());
}

#[test]
fn idle_source_delivers_nothing() {
    let rt = runtime();
    let (tx, mut rx) = tokio::sync::mpsc::channel::<String>(10);
    rt.block_on(async move {
        let got = tokio::time::timeout(Duration::from_millis(100), rx.recv()).await;
        // The receive is still pending after the interval: no item, no error.
        assert!(got.is_err());
        drop(tx);
    });
}

#[test]
fn dropped_receiver_is_silently_discarded() {
    let (tx, rx) = tokio::sync::mpsc::channel::<String>(1);
    drop(rx);
    let mut buf = LineBuffer::new();
    // The worker keeps reading and discarding without error or panic.
    assert_eq!(step(&mut buf, &tx, ReadEvent::Data(b"x\ny\nz\n".to_vec())), 3);
    assert_eq!(step(&mut buf, &tx, ReadEvent::Data(b"tail".to_vec())), 0);
    assert_eq!(step(&mut buf, &tx, ReadEvent::EndOfInput), 1);
}

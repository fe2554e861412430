use zstd_chunked::walk::Step;
use zstd_chunked::{Chunk, ContentReference, Stream};

fn named(digest: &str) -> ContentReference {
    ContentReference { range: 0..1, digest: digest.to_string(), size: 1 }
}

fn stream() -> Stream {
    Stream {
        chunks: vec![
            Chunk::External(vec![]),
            Chunk::Inline(b"[".to_vec()),
            Chunk::External(vec![named("a"), named("b")]),
            Chunk::External(vec![]),
            Chunk::Inline(Vec::new()),
            Chunk::Inline(b"|".to_vec()),
            Chunk::External(vec![named("c")]),
            Chunk::Inline(b"]".to_vec()),
            Chunk::External(vec![]),
        ],
    }
}

fn steps(stream: &Stream) -> Vec<String> {
    let mut seen = Vec::new();
    let mut cursor = stream.start();
    while let Some((step, next)) = stream.step(cursor) {
        seen.push(match step {
            Step::Write(bytes) => format!("write {}", String::from_utf8_lossy(bytes)),
            Step::Resolve(reference) => format!("resolve {}", reference.digest),
        });
        cursor = next;
    }
    assert!(stream.step(cursor).is_none());
    seen
}

#[test]
fn steps_of_a_walk() {
    assert_eq!(
        steps(&stream()),
        ["write [", "resolve a", "resolve b", "write ", "write |", "resolve c", "write ]"]
    );
}

#[test]
fn walk_of_an_empty_stream() {
    assert!(steps(&Stream { chunks: vec![] }).is_empty());
    assert!(steps(&Stream { chunks: vec![Chunk::External(vec![])] }).is_empty());
}

#[test]
fn walk_writes_what_write_to_writes() {
    let stream = stream();
    let resolve = |reference: &ContentReference| -> Result<Vec<u8>, ()> {
        Ok(format!("<{}>", reference.digest).into_bytes())
    };
    let mut expected = Vec::new();
    stream.write_to(&mut expected, resolve).unwrap();

    let mut out = Vec::new();
    let mut asked = Vec::new();
    let mut cursor = stream.start();
    while let Some((step, next)) = stream.step(cursor) {
        match step {
            Step::Write(bytes) => out.extend_from_slice(bytes),
            Step::Resolve(reference) => {
                asked.push(reference.digest.clone());
                out.extend(resolve(reference).unwrap());
            }
        }
        cursor = next;
    }
    assert_eq!(out, expected);
    assert_eq!(out, b"[<a><b>|<c>]");
    let listed: Vec<String> = stream.references().iter().map(|r| r.digest.clone()).collect();
    assert_eq!(asked, listed);
}

#[test]
fn a_step_can_be_asked_for_again() {
    let stream = stream();
    let start = stream.start();
    let (first, next) = stream.step(start).unwrap();
    assert!(matches!(first, Step::Write(b"[")));
    let (again, _) = stream.step(start).unwrap();
    assert!(matches!(again, Step::Write(b"[")));
    let (second, _) = stream.step(next).unwrap();
    assert!(matches!(second, Step::Resolve(reference) if reference.digest == "a"));
}

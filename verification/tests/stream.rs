use zstd_chunked::{
    Chunk, ContentReference, CorruptMetadata, Manifest, ManifestEntry, Stream, TarSplitEntry,
};

fn frame(text: &[u8]) -> Vec<u8> {
    zstd::encode_all(text, 0).unwrap()
}

fn build(manifest: &str, tarsplit: &str) -> Result<Stream, CorruptMetadata> {
    Stream::new_from_frames(&frame(manifest.as_bytes()), &frame(tarsplit.as_bytes()))
}

fn write(stream: &Stream) -> Vec<u8> {
    let mut out = Vec::new();
    stream
        .write_to(&mut out, |reference: &ContentReference| -> Result<Vec<u8>, String> {
            Ok(format!("<{}>", reference.digest).into_bytes())
        })
        .unwrap();
    out
}

const ONE_FILE: &str =
    r#"{"version":1,"entries":[{"name":"a","size":3,"digest":"d","offset":0,"endOffset":10}]}"#;

#[test]
fn version_mismatch() {
    let error = build(r#"{"version":2,"entries":[]}"#, "").unwrap_err();
    assert!(matches!(error, CorruptMetadata::Version));
    assert_eq!(error.message(), "Incorrect zstd:chunked CRFS manifest version");
    let error = build(r#"{"version":0,"entries":[]}"#, "").unwrap_err();
    assert!(matches!(error, CorruptMetadata::Version));
}

#[test]
fn version_comes_before_the_tarsplit() {
    let error =
        Stream::new_from_frames(&frame(br#"{"version":2,"entries":[]}"#), b"junk").unwrap_err();
    assert!(matches!(error, CorruptMetadata::Version));
}

#[test]
fn cross_ref_miss() {
    let error = build(ONE_FILE, r#"{"name":"b","size":3}"#).unwrap_err();
    assert!(matches!(&error, CorruptMetadata::MissingFile(name) if name == "b"));
    assert!(error.message().contains("b"));
    assert_eq!(error.message(), "Filename b in zstd:chunked tarsplit missing from manifest");
}

#[test]
fn size_mismatch() {
    let error = build(ONE_FILE, r#"{"name":"a","size":4}"#).unwrap_err();
    assert!(matches!(error, CorruptMetadata::SizeMismatch));
    assert_eq!(error.message(), "size mismatch");
}

#[test]
fn end_to_end_tar_reconstruction() {
    let mut header = vec![0u8; 512];
    header[..1].copy_from_slice(b"a");
    header[124..135].copy_from_slice(b"00000000003");
    header[156] = b'0';
    header[257..262].copy_from_slice(b"ustar");
    let mut footer = vec![0u8; 509];
    footer.extend_from_slice(&[0u8; 1024]);

    let manifest =
        r#"{"version":1,"entries":[{"name":"a","size":3,"digest":"sha256:x","offset":0,"endOffset":5}]}"#;
    let encode = |bytes: &[u8]| base64::Engine::encode(&base64::engine::general_purpose::STANDARD, bytes);
    let tarsplit = format!(
        "{{\"type\":2,\"payload\":\"{}\",\"position\":0}}\n{{\"type\":1,\"name\":\"a\",\"size\":3,\"crc64\":\"AAAA\",\"position\":1}}\n{{\"type\":2,\"payload\":\"{}\",\"position\":2}}\n",
        encode(&header),
        encode(&footer)
    );
    let stream = build(manifest, &tarsplit).unwrap();
    assert_eq!(stream.chunks.len(), 3);
    assert!(matches!(&stream.chunks[0], Chunk::Inline(data) if *data == header));
    assert!(matches!(&stream.chunks[1], Chunk::External(references)
        if references.len() == 1 && references[0].range == (0..5)
            && references[0].digest == "sha256:x" && references[0].size == 3));
    assert!(matches!(&stream.chunks[2], Chunk::Inline(data) if *data == footer));

    let references = stream.references();
    assert_eq!(references.len(), 1);
    assert_eq!(references[0].range, 0..5);

    let mut out = Vec::new();
    stream
        .write_to(&mut out, |_: &ContentReference| -> Result<Vec<u8>, String> {
            Ok(b"abc".to_vec())
        })
        .unwrap();
    let mut expected = header.clone();
    expected.extend_from_slice(b"abc");
    expected.extend_from_slice(&footer);
    assert_eq!(out, expected);
    assert_eq!(out.len(), 2048);
}

#[test]
fn empty_metadata_is_an_empty_stream() {
    let stream = build(r#"{"version":1,"entries":[]}"#, "").unwrap();
    assert!(stream.chunks.is_empty());
    assert!(stream.references().is_empty());
    assert!(write(&stream).is_empty());
}

#[test]
fn named_takes_precedence_over_payload() {
    let stream = build(ONE_FILE, r#"{"name":"a","size":3,"payload":"aGk="}"#).unwrap();
    assert_eq!(stream.chunks.len(), 1);
    assert!(matches!(&stream.chunks[0], Chunk::External(_)));
}

#[test]
fn name_without_size_is_not_named() {
    let stream = build(ONE_FILE, "{\"name\":\"zzz\",\"payload\":\"aGk=\"}\n{\"name\":\"zzz\"}").unwrap();
    assert_eq!(stream.chunks.len(), 1);
    assert!(matches!(&stream.chunks[0], Chunk::Inline(data) if data == b"hi"));
}

#[test]
fn other_records_are_skipped() {
    let stream = build(ONE_FILE, "{}\n{\"type\":5}\n{\"size\":3}\n{\"payload\":null,\"name\":null}").unwrap();
    assert!(stream.chunks.is_empty());
}

#[test]
fn payload_is_base64() {
    let stream = build(ONE_FILE, r#"{"payload":"AAEC/f7/"}"#).unwrap();
    assert!(matches!(&stream.chunks[0], Chunk::Inline(data) if data == &[0, 1, 2, 253, 254, 255]));
    let stream = build(ONE_FILE, r#"{"payload":""}"#).unwrap();
    assert!(matches!(&stream.chunks[0], Chunk::Inline(data) if data.is_empty()));
    for bad in [r#"{"payload":"****"}"#, r#"{"payload":"AAE"}"#, r#"{"payload":"AAEC/f7/\n"}"#] {
        assert!(matches!(build(ONE_FILE, bad), Err(CorruptMetadata::Json)), "{bad}");
    }
}

#[test]
fn later_manifest_entry_wins() {
    let manifest = r#"{"version":1,"entries":[
        {"name":"a","size":3,"digest":"first","offset":0,"endOffset":10},
        {"name":"a","size":4,"digest":"second","offset":10,"endOffset":20},
        {"name":"a","size":5,"digest":"chunk","offset":20}]}"#;
    let stream = build(manifest, r#"{"name":"a","size":4}"#).unwrap();
    assert!(matches!(&stream.chunks[0], Chunk::External(references)
        if references[0].digest == "second" && references[0].range == (10..20)));
    assert!(matches!(build(manifest, r#"{"name":"a","size":3}"#), Err(CorruptMetadata::SizeMismatch)));
}

#[test]
fn incomplete_manifest_entries_are_ignored() {
    for entry in [
        r#"{"name":"a","digest":"d","offset":0,"endOffset":10}"#,
        r#"{"name":"a","size":3,"offset":0,"endOffset":10}"#,
        r#"{"name":"a","size":3,"digest":"d","endOffset":10}"#,
        r#"{"name":"a","size":3,"digest":"d","offset":0}"#,
        r#"{"name":"a","size":3,"digest":null,"offset":0,"endOffset":10}"#,
        r#"{"name":"a"}"#,
    ] {
        let manifest = format!(r#"{{"version":1,"entries":[{entry}]}}"#);
        let error = build(&manifest, r#"{"name":"a","size":3}"#).unwrap_err();
        assert!(matches!(&error, CorruptMetadata::MissingFile(name) if name == "a"), "{entry}");
        assert!(build(&manifest, r#"{"payload":"aGk="}"#).is_ok());
    }
}

#[test]
fn unknown_members_are_ignored() {
    let manifest = r#"{"extra":[1,2],"version":1,"entries":[{"type":"reg","name":"a","size":3,
        "digest":"d","offset":0,"endOffset":10,"mode":420,"xattrs":{"k":"v"}}],"more":null}"#;
    let stream = build(manifest, r#"{"name":"a","size":3,"crc64":"x","position":7}"#).unwrap();
    assert_eq!(stream.chunks.len(), 1);
}

#[test]
fn malformed_manifest() {
    for bad in [
        "",
        "{",
        "[]",
        "null",
        r#"{"entries":[]}"#,
        r#"{"version":1}"#,
        r#"{"version":"1","entries":[]}"#,
        r#"{"version":1.0,"entries":[]}"#,
        r#"{"version":-1,"entries":[]}"#,
        r#"{"version":4294967296,"entries":[]}"#,
        r#"{"version":1,"entries":{}}"#,
        r#"{"version":1,"entries":[{}]}"#,
        r#"{"version":1,"entries":[{"name":1}]}"#,
        r#"{"version":1,"entries":[{"name":"a","size":"3"}]}"#,
        r#"{"version":1,"entries":[{"name":"a","size":-3}]}"#,
        r#"{"version":1,"entries":[{"name":"a","digest":3}]}"#,
        r#"{"version":1,"entries":[{"name":"a","offset":1.5}]}"#,
        r#"{"version":1,"entries":[{"name":"a","endOffset":[]}]}"#,
        r#"{"version":1,"entries":[]} trailing"#,
    ] {
        assert!(matches!(build(bad, ""), Err(CorruptMetadata::Json)), "{bad}");
    }
    assert!(matches!(
        build(r#"{"version":4294967295,"entries":[]}"#, ""),
        Err(CorruptMetadata::Version)
    ));
}

#[test]
fn malformed_tarsplit() {
    for bad in [
        "{",
        "5",
        "[]",
        "null",
        "\"text\"",
        r#"{"name":5}"#,
        r#"{"size":"5"}"#,
        r#"{"size":-1}"#,
        r#"{"size":1.5}"#,
        r#"{"payload":5}"#,
        "{} {}",
        " ",
        "{}\n \n{}",
        "\r",
    ] {
        assert!(matches!(build(ONE_FILE, bad), Err(CorruptMetadata::Json)), "{bad:?}");
    }
}

#[test]
fn empty_lines_are_no_records() {
    let manifest = frame(br#"{"version":1,"entries":[]}"#);
    let stream =
        Stream::new_from_frames(&manifest, &frame(b"{\"payload\":\"YQ==\"}\n\n{\"payload\":\"Yg==\"}\n"))
            .unwrap();
    assert_eq!(stream.chunks.len(), 2);
    assert!(matches!(&stream.chunks[0], Chunk::Inline(data) if data == b"a"));
    assert!(matches!(&stream.chunks[1], Chunk::Inline(data) if data == b"b"));

    for text in ["\n", "\n\n\n", "\r\n", "{}\n\n{}", "\n{}\r\n\r\n"] {
        let stream = build(ONE_FILE, text).unwrap();
        assert!(stream.chunks.is_empty(), "{text:?}");
    }
    let stream = build(ONE_FILE, "\n{\"name\":\"a\",\"size\":3}\n\n\n{\"payload\":\"YQ==\"}\n\n").unwrap();
    assert_eq!(write(&stream), b"<d>a");
    let error = build(ONE_FILE, "\n\n{\"name\":\"b\",\"size\":3}").unwrap_err();
    assert!(matches!(error, CorruptMetadata::MissingFile(_)));
}

#[test]
fn first_failing_line_gives_the_error() {
    let error = build(ONE_FILE, "{\"name\":\"b\",\"size\":3}\n{").unwrap_err();
    assert!(matches!(error, CorruptMetadata::MissingFile(_)));
    let error = build(ONE_FILE, "{\n{\"name\":\"b\",\"size\":3}").unwrap_err();
    assert!(matches!(error, CorruptMetadata::Json));
    let error = build(ONE_FILE, "{\"name\":\"a\",\"size\":9}\n{\"name\":\"b\",\"size\":3}").unwrap_err();
    assert!(matches!(error, CorruptMetadata::SizeMismatch));
}

#[test]
fn line_endings() {
    let stream = build(ONE_FILE, "{\"payload\":\"YQ==\"}\r\n{\"payload\":\"Yg==\"}\n{\"payload\":\"Yw==\"}").unwrap();
    assert_eq!(write(&stream), b"abc");
    let stream = build(ONE_FILE, "{\"payload\":\"YQ==\"}\r\n").unwrap();
    assert_eq!(write(&stream), b"a");
    let stream = build(ONE_FILE, "{\"payload\":\"YQ==\"}\r").unwrap();
    assert_eq!(write(&stream), b"a");
}

#[test]
fn not_zstd() {
    let good = frame(br#"{"version":1,"entries":[]}"#);
    assert!(matches!(
        Stream::new_from_frames(br#"{"version":1,"entries":[]}"#, &frame(b"")),
        Err(CorruptMetadata::Decompress)
    ));
    assert!(matches!(Stream::new_from_frames(&good, b"{}"), Err(CorruptMetadata::Decompress)));
    assert!(matches!(Stream::new_from_frames(&good, b""), Err(CorruptMetadata::Decompress)));
    assert!(matches!(
        Stream::new_from_frames(&good[..good.len() - 1], &frame(b"")),
        Err(CorruptMetadata::Decompress)
    ));
    assert!(Stream::new_from_frames(&good, &frame(b"")).is_ok());
}

#[test]
fn tarsplit_must_be_utf8() {
    let good = frame(br#"{"version":1,"entries":[]}"#);
    let error = Stream::new_from_frames(&good, &frame(b"{}\n\xff")).unwrap_err();
    assert!(matches!(error, CorruptMetadata::NotUtf8));
    let error = Stream::new_from_frames(&good, &frame(b"{\"x\":\"\xc3\"}")).unwrap_err();
    assert!(matches!(error, CorruptMetadata::NotUtf8));
    assert!(Stream::new_from_frames(&good, &frame("{\"x\":\"é\"}".as_bytes())).is_ok());
}

#[test]
fn names_are_compared_as_text() {
    let manifest = r#"{"version":1,"entries":[{"name":"déjà/vu","size":1,"digest":"d","offset":1,"endOffset":2}]}"#;
    let stream = build(manifest, "{\"name\":\"déjà/vu\",\"size\":1}").unwrap();
    assert_eq!(stream.references().len(), 1);
    let error = build(manifest, "{\"name\":\"deja/vu\",\"size\":1}").unwrap_err();
    assert_eq!(error.message(), "Filename deja/vu in zstd:chunked tarsplit missing from manifest");
}

#[test]
fn references_carry_the_manifest_verbatim() {
    let manifest = r#"{"version":1,"entries":[
        {"name":"big","size":18446744073709551615,"digest":"sha256:00ff","offset":18446744073709551615,"endOffset":0},
        {"name":"small","size":0,"digest":"","offset":7,"endOffset":7}]}"#;
    let stream = build(
        manifest,
        "{\"name\":\"small\",\"size\":0}\n{\"name\":\"big\",\"size\":18446744073709551615}\n{\"name\":\"small\",\"size\":0}",
    )
    .unwrap();
    let references = stream.references();
    assert_eq!(references.len(), 3);
    assert_eq!(references[0].range, 7..7);
    assert_eq!(references[0].digest, "");
    assert_eq!(references[0].size, 0);
    assert_eq!(references[1].range.start, u64::MAX);
    assert_eq!(references[1].range.end, 0);
    assert_eq!(references[1].digest, "sha256:00ff");
    assert_eq!(references[1].size, u64::MAX);
    assert_eq!(references[2].range, 7..7);
}

fn reference(digest: &str) -> ContentReference {
    ContentReference { range: 0..1, digest: digest.to_string(), size: 1 }
}

fn sample() -> Stream {
    Stream {
        chunks: vec![
            Chunk::Inline(b"[".to_vec()),
            Chunk::External(vec![reference("a"), reference("b")]),
            Chunk::External(vec![]),
            Chunk::Inline(b"|".to_vec()),
            Chunk::Inline(b"|".to_vec()),
            Chunk::External(vec![reference("c")]),
            Chunk::Inline(b"]".to_vec()),
        ],
    }
}

#[test]
fn references_are_in_order() {
    let stream = sample();
    let digests: Vec<&str> = stream.references().iter().map(|r| r.digest.as_str()).collect();
    assert_eq!(digests, ["a", "b", "c"]);
}

#[test]
fn write_follows_the_references() {
    let stream = sample();
    assert_eq!(write(&stream), b"[<a><b>||<c>]");
    let asked = std::cell::RefCell::new(Vec::new());
    let mut out = b"before".to_vec();
    stream
        .write_to(&mut out, |r: &ContentReference| -> Result<Vec<u8>, ()> {
            asked.borrow_mut().push(r.digest.clone());
            Ok(Vec::new())
        })
        .unwrap();
    assert_eq!(out, b"before[||]");
    let listed: Vec<String> = stream.references().iter().map(|r| r.digest.clone()).collect();
    assert_eq!(*asked.borrow(), listed);
}

#[test]
fn write_stops_at_the_first_error() {
    let stream = sample();
    for (failing, written) in [("a", &b"["[..]), ("b", b"[<a>"), ("c", b"[<a><b>||")] {
        let asked = std::cell::Cell::new(0);
        let mut out = Vec::new();
        let result = stream.write_to(&mut out, |r: &ContentReference| {
            asked.set(asked.get() + 1);
            if r.digest == failing {
                Err(format!("no {}", r.digest))
            } else {
                Ok(format!("<{}>", r.digest).into_bytes())
            }
        });
        assert_eq!(result, Err(format!("no {failing}")));
        assert_eq!(out, written);
        assert_eq!(asked.get(), written.iter().filter(|b| **b == b'<').count() + 1);
    }
}

#[test]
fn stream_from_decoded_metadata() {
    let manifest = Manifest {
        version: 1,
        entries: vec![
            ManifestEntry {
                name: "a".into(),
                size: Some(3),
                digest: Some("d".into()),
                offset: Some(0),
                end_offset: Some(10),
            },
            ManifestEntry { name: "dir".into(), size: None, digest: None, offset: None, end_offset: None },
        ],
    };
    let records = || {
        vec![
            TarSplitEntry { name: None, size: None, payload: Some(b"head".to_vec()) },
            TarSplitEntry { name: Some("a".into()), size: Some(3), payload: None },
            TarSplitEntry { name: None, size: Some(1), payload: None },
            TarSplitEntry { name: Some("dir".into()), size: None, payload: Some(b"tail".to_vec()) },
        ]
    };
    let stream = Stream::new(&manifest, records()).unwrap();
    assert_eq!(write(&stream), b"head<d>tail");

    let mut with_dir = records();
    with_dir.push(TarSplitEntry { name: Some("dir".into()), size: Some(0), payload: None });
    assert!(matches!(Stream::new(&manifest, with_dir),
        Err(CorruptMetadata::MissingFile(name)) if name == "dir"));

    let mut wrong_size = records();
    wrong_size[1].size = Some(2);
    assert!(matches!(Stream::new(&manifest, wrong_size), Err(CorruptMetadata::SizeMismatch)));

    let old = Manifest { version: 2, entries: vec![] };
    assert!(matches!(Stream::new(&old, vec![]), Err(CorruptMetadata::Version)));
}

#[test]
fn decoders_read_json_values() {
    let value: serde_json::Value = serde_json::from_str(
        r#"{"version":1,"entries":[{"name":"a","size":3,"digest":"d","offset":1,"endOffset":2}]}"#,
    )
    .unwrap();
    let manifest = Manifest::from_value(&value).unwrap();
    assert_eq!(manifest.version, 1);
    assert_eq!(manifest.entries.len(), 1);
    assert_eq!(manifest.entries[0].name, "a");
    assert_eq!(manifest.entries[0].size, Some(3));
    assert_eq!(manifest.entries[0].digest.as_deref(), Some("d"));
    assert_eq!(manifest.entries[0].offset, Some(1));
    assert_eq!(manifest.entries[0].end_offset, Some(2));
    assert!(ManifestEntry::from_value(&value).is_none());

    let value: serde_json::Value =
        serde_json::from_str(r#"{"name":"n","size":18446744073709551615,"payload":"AQI="}"#).unwrap();
    let record = TarSplitEntry::from_value(&value).unwrap();
    assert_eq!(record.name.as_deref(), Some("n"));
    assert_eq!(record.size, Some(u64::MAX));
    assert_eq!(record.payload.as_deref(), Some(&[1u8, 2][..]));
    assert!(TarSplitEntry::from_value(&serde_json::Value::Null).is_none());
    assert!(Manifest::from_value(&value).is_none());
}

#[test]
fn stream_agrees_with_a_plain_decoder() {
    let pieces: [&[u8]; 5] = [b"header of a", b"contents of a", b"padding, header of b", b"bb", b"end"];
    let mut file = Vec::new();
    let mut ranges = Vec::new();
    for piece in pieces {
        let start = file.len() as u64;
        file.extend(frame(piece));
        ranges.push(start..file.len() as u64);
    }
    let encode = |bytes: &[u8]| base64::Engine::encode(&base64::engine::general_purpose::STANDARD, bytes);
    let manifest = format!(
        r#"{{"version":1,"entries":[{{"name":"a","size":13,"digest":"da","offset":{},"endOffset":{}}},{{"name":"b","size":2,"digest":"db","offset":{},"endOffset":{}}}]}}"#,
        ranges[1].start, ranges[1].end, ranges[3].start, ranges[3].end
    );
    let tarsplit = format!(
        "{{\"payload\":\"{}\"}}\n{{\"name\":\"a\",\"size\":13}}\n{{\"payload\":\"{}\"}}\n{{\"name\":\"b\",\"size\":2}}\n{{\"payload\":\"{}\"}}\n",
        encode(pieces[0]), encode(pieces[2]), encode(pieces[4])
    );
    let stream = build(&manifest, &tarsplit).unwrap();
    let mut out = Vec::new();
    stream
        .write_to(&mut out, |r: &ContentReference| {
            zstd::decode_all(&file[r.range.start as usize..r.range.end as usize])
        })
        .unwrap();
    assert_eq!(out, zstd::decode_all(&file[..]).unwrap());
    assert_eq!(out, pieces.concat());
    for r in stream.references() {
        assert!(r.range.start <= r.range.end && r.range.end <= file.len() as u64);
        let data = zstd::decode_all(&file[r.range.start as usize..r.range.end as usize]).unwrap();
        assert_eq!(data.len() as u64, r.size);
    }
}

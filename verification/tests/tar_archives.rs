//! The TAR walker and the canonical TAR writer: ustar, pax and GNU
//! long names, links and directories, unsupported features, and
//! deterministic output that walks back to the same content.

use legra_chunk::decompose::media::{container_by_prefix, extension, is_tar_prefix, is_wrapped_tar_name, named_media_type};
use legra_chunk::decompose::reader::{check_path, ReaderEvent, ReaderOut, TarReader};
use legra_chunk::decompose::tar::{checksum_matches, TarEvent, TarKind, TarWalker};
use legra_chunk::{CanonicalTarWriter, ContainerKind, DecomposeError, EntryKind, OpaqueReason};

// ---------------------------------------------------------------
// An independent TAR builder.
// ---------------------------------------------------------------

fn noise(seed: &str, len: usize) -> Vec<u8> {
    let mut bytes: Vec<u8> = vec![0u8; len];
    let mut hasher = blake3::Hasher::new();
    hasher.update(seed.as_bytes());
    hasher.finalize_xof().fill(&mut bytes);
    bytes
}

fn prose(seed: &str, len: usize) -> Vec<u8> {
    let raw: Vec<u8> = noise(seed, len);
    let mut out: Vec<u8> = Vec::with_capacity(len + len / 8);
    for (index, byte) in raw.iter().enumerate() {
        out.push(b'a' + byte % 26);
        if index % 13 == 12 {
            out.push(b' ');
        }
        if index % 67 == 66 {
            out.push(b'\n');
        }
    }
    out
}

enum TarFix<'a> {
    File { path: &'a [u8], bytes: &'a [u8] },
    Dir { path: &'a [u8] },
    Symlink { path: &'a [u8], target: &'a [u8] },
    PaxFile { path: &'a [u8], bytes: &'a [u8] },
    GnuFile { path: &'a [u8], bytes: &'a [u8] },
}

fn tar_octal(field: &mut [u8], value: u64) {
    let text: String = format!("{value:0width$o}", width = field.len() - 1);
    field[..text.len()].copy_from_slice(text.as_bytes());
}

fn tar_header(path: &[u8], size: u64, typeflag: u8, link: &[u8], mtime: u64) -> [u8; 512] {
    let mut block: [u8; 512] = [0u8; 512];
    block[..path.len()].copy_from_slice(path);
    tar_octal(&mut block[100..108], 0o640);
    tar_octal(&mut block[108..116], 0);
    tar_octal(&mut block[116..124], 0);
    tar_octal(&mut block[124..136], size);
    tar_octal(&mut block[136..148], mtime);
    block[156] = typeflag;
    block[157..157 + link.len()].copy_from_slice(link);
    block[257..262].copy_from_slice(b"ustar");
    block[263..265].copy_from_slice(b"00");
    block[148..156].copy_from_slice(b"        ");
    let sum: u64 = block.iter().map(|byte| u64::from(*byte)).sum();
    let text: String = format!("{sum:06o}");
    block[148..154].copy_from_slice(text.as_bytes());
    block[154] = 0;
    block[155] = b' ';
    block
}

fn pad(out: &mut Vec<u8>) {
    let rem: usize = out.len() % 512;
    if rem != 0 {
        out.extend(std::iter::repeat(0u8).take(512 - rem));
    }
}

fn tar(entries: &[TarFix<'_>]) -> Vec<u8> {
    let mut out: Vec<u8> = Vec::new();
    for entry in entries {
        match entry {
            TarFix::File { path, bytes } => {
                out.extend_from_slice(&tar_header(path, bytes.len() as u64, b'0', b"", 1234));
                out.extend_from_slice(bytes);
                pad(&mut out);
            },
            TarFix::Dir { path } => {
                out.extend_from_slice(&tar_header(path, 0, b'5', b"", 1234));
            },
            TarFix::Symlink { path, target } => {
                out.extend_from_slice(&tar_header(path, 0, b'2', target, 1234));
            },
            TarFix::PaxFile { path, bytes } => {
                let mut record: Vec<u8> = Vec::new();
                let body_len: usize = 1 + 4 + 1 + path.len() + 1;
                let mut total: usize = body_len;
                loop {
                    let digits: usize = total.to_string().len();
                    if digits + body_len == total {
                        break;
                    }
                    total = digits + body_len;
                }
                record.extend_from_slice(format!("{total} path=").as_bytes());
                record.extend_from_slice(path);
                record.push(b'\n');
                out.extend_from_slice(&tar_header(b"PaxHeaders/x", record.len() as u64, b'x', b"", 0));
                out.extend_from_slice(&record);
                pad(&mut out);
                out.extend_from_slice(&tar_header(b"short-name", bytes.len() as u64, b'0', b"", 1234));
                out.extend_from_slice(bytes);
                pad(&mut out);
            },
            TarFix::GnuFile { path, bytes } => {
                out.extend_from_slice(&tar_header(b"././@LongLink", path.len() as u64 + 1, b'L', b"", 0));
                out.extend_from_slice(path);
                out.push(0);
                pad(&mut out);
                out.extend_from_slice(&tar_header(b"short-gnu", bytes.len() as u64, b'0', b"", 1234));
                out.extend_from_slice(bytes);
                pad(&mut out);
            },
        }
    }
    out.extend_from_slice(&[0u8; 1024]);
    out
}

// ---------------------------------------------------------------
// Walking: the walker's events, recorded.
// ---------------------------------------------------------------

/// One recorded event.
#[derive(Debug, Clone, PartialEq, Eq)]
enum Ev {
    Start(ContainerKind, u32),
    Entry(EntryKind, Vec<u8>, u32),
    Member { path: Vec<u8>, depth: u32 },
    Bytes(Vec<u8>, u32),
    MemberEnd(u64, u32),
    End(u32),
}

#[derive(Default)]
struct Recorder {
    events: Vec<Ev>,
}

impl Recorder {
    fn member_bytes_of(&self, path: &[u8]) -> Vec<u8> {
        let mut collecting: bool = false;
        let mut out: Vec<u8> = Vec::new();
        for event in &self.events {
            match event {
                Ev::Member { path: at, .. } if at == path => collecting = true,
                Ev::Bytes(bytes, _) if collecting => out.extend_from_slice(bytes),
                Ev::MemberEnd(..) if collecting => return out,
                _ => {},
            }
        }
        out
    }

    fn push_bytes(&mut self, bytes: &[u8]) {
        if let Some(Ev::Bytes(pending, _)) = self.events.last_mut() {
            pending.extend_from_slice(bytes);
            return;
        }
        self.events.push(Ev::Bytes(bytes.to_vec(), 0));
    }
}

/// Decompose a TAR archive fed in `window`-sized slices: recognize
/// the container by its prefix, run the TAR reader byte by byte,
/// check every path, and record the events.
fn run(bytes: &[u8], window: usize) -> Result<Recorder, DecomposeError> {
    let mut recorder = Recorder::default();
    let kind: ContainerKind =
        container_by_prefix(&bytes[..bytes.len().min(512)]).ok_or(DecomposeError::NotAContainer)?;
    recorder.events.push(Ev::Start(kind, 0));
    let mut reader = TarReader::new();
    let mut out = ReaderOut::new();
    for slice in bytes.chunks(window.max(1)) {
        for byte in slice {
            reader.push(*byte, &mut out).map_err(DecomposeError::Opaque)?;
            for event in out.events.drain(..) {
                match event {
                    ReaderEvent::Announce(_) => {},
                    ReaderEvent::Entry(kind, meta) => {
                        check_path(&meta.path)?;
                        recorder.events.push(Ev::Entry(kind, meta.path, 0));
                    },
                    ReaderEvent::MemberStart(meta) => {
                        check_path(&meta.path)?;
                        recorder.events.push(Ev::Member { path: meta.path, depth: 0 });
                    },
                    ReaderEvent::Bytes(bytes) => recorder.push_bytes(&bytes),
                    ReaderEvent::MemberEnd(len) => recorder.events.push(Ev::MemberEnd(len, 0)),
                }
            }
        }
    }
    reader.finish(&mut out).map_err(DecomposeError::Opaque)?;
    recorder.events.push(Ev::End(0));
    Ok(recorder)
}

fn expect_opaque(result: Result<Recorder, DecomposeError>) -> OpaqueReason {
    match result {
        Err(DecomposeError::Opaque(reason)) => reason,
        Err(other) => panic!("expected opaque, got {other:?}"),
        Ok(_) => panic!("expected opaque, got a decomposition"),
    }
}

#[test]
fn tar_walks_ustar_pax_gnu_links_and_dirs() {
    let a: Vec<u8> = prose("dec/tar-a", 20 << 10);
    let b: Vec<u8> = noise("dec/tar-b", 3 << 10);
    let long_path: Vec<u8> = [b"deep/".repeat(30).as_slice(), b"leaf.txt"].concat();
    let input: Vec<u8> = tar(&[
        TarFix::Dir { path: b"deep/" },
        TarFix::File { path: b"deep/a.txt", bytes: &a },
        TarFix::Symlink { path: b"deep/link", target: b"a.txt" },
        TarFix::PaxFile { path: &long_path, bytes: &b },
        TarFix::GnuFile { path: &long_path, bytes: &b },
    ]);
    let whole: Recorder = run(&input, 512).expect("decomposes");
    assert_eq!(whole.events[0], Ev::Start(ContainerKind::Tar, 0));
    assert!(whole.events.contains(&Ev::Entry(EntryKind::Directory, b"deep/".to_vec(), 0)));
    assert!(whole.events.contains(&Ev::Entry(
        EntryKind::Symlink { target: b"a.txt".to_vec() },
        b"deep/link".to_vec(),
        0
    )));
    assert_eq!(whole.member_bytes_of(b"deep/a.txt"), a);
    assert_eq!(whole.member_bytes_of(&long_path), b, "pax path override");
    let gnu_members: usize = whole
        .events
        .iter()
        .filter(|event| matches!(event, Ev::Member { path, .. } if path == &long_path))
        .count();
    assert_eq!(gnu_members, 2, "pax and GNU long names both resolve");
    assert_eq!(run(&input, 1).expect("decomposes").events, whole.events);
}

#[test]
fn sparse_tar_members_are_unsupported() {
    let mut input: Vec<u8> = tar(&[TarFix::File { path: b"normal.txt", bytes: b"hello world padding padding" }]);
    input[156] = b'S';
    input[148..156].copy_from_slice(b"        ");
    let sum: u64 = input[..512].iter().map(|byte| u64::from(*byte)).sum();
    let text: String = format!("{sum:06o}");
    input[148..154].copy_from_slice(text.as_bytes());
    input[154] = 0;
    input[155] = b' ';
    assert!(matches!(expect_opaque(run(&input, 512)), OpaqueReason::UnsupportedFeature { .. }));
}

fn write_tar(build: impl FnOnce(&mut CanonicalTarWriter, &mut Vec<Vec<u8>>)) -> Vec<u8> {
    let mut emit: Vec<Vec<u8>> = Vec::new();
    let mut writer = CanonicalTarWriter::new();
    build(&mut writer, &mut emit);
    writer.finish(&mut emit);
    emit.concat()
}

#[test]
fn canonical_tar_round_trips_including_long_paths() {
    let a: Vec<u8> = prose("dec/wtar-a", 20 << 10);
    let long_path: Vec<u8> = [b"nested/".repeat(20).as_slice(), b"leaf.bin"].concat();
    let b: Vec<u8> = noise("dec/wtar-b", 5 << 10);
    let build = |writer: &mut CanonicalTarWriter, emit: &mut Vec<Vec<u8>>| {
        writer.entry(&EntryKind::Directory, b"nested/", emit);
        writer.begin_member(b"a.txt", a.len() as u64, emit);
        writer.member_bytes(&a, emit);
        writer.end_member(emit);
        writer.begin_member(&long_path, b.len() as u64, emit);
        writer.member_bytes(&b, emit);
        writer.end_member(emit);
    };
    let out: Vec<u8> = write_tar(build);
    let again: Vec<u8> = write_tar(build);
    assert_eq!(out, again, "deterministic");

    let walked: Recorder = run(&out, 512).expect("canonical tar decomposes");
    assert_eq!(walked.events[0], Ev::Start(ContainerKind::Tar, 0));
    assert_eq!(walked.member_bytes_of(b"a.txt"), a);
    assert_eq!(walked.member_bytes_of(&long_path), b);
}

#[test]
fn canonical_tar_of_a_decomposed_gzip_stays_stable() {
    let payload: Vec<u8> = noise("dec/stable", 24 << 10);
    let build = |bytes: &[u8]| {
        write_tar(|writer, emit| {
            writer.begin_member(b"data.bin", bytes.len() as u64, emit);
            writer.member_bytes(bytes, emit);
            writer.end_member(emit);
        })
    };
    let first: Vec<u8> = build(&payload);
    let walked: Recorder = run(&first, 512).expect("decomposes");
    let second: Vec<u8> = build(&walked.member_bytes_of(b"data.bin"));
    assert_eq!(first, second);
}

/// The canonical header layout: name, fixed mode, zero ids and time,
/// octal size, the checksum, the type flag and the ustar magic; a
/// member's data is padded to the block and the archive ends with two
/// zero blocks.
#[test]
fn canonical_tar_header_layout() {
    let out: Vec<u8> = write_tar(|writer, emit| {
        writer.begin_member(b"a.txt", 5, emit);
        writer.member_bytes(b"hello", emit);
        writer.end_member(emit);
    });
    assert_eq!(out.len(), 512 * 4);
    let header: &[u8] = &out[..512];
    assert_eq!(&header[..5], b"a.txt");
    assert!(header[5..100].iter().all(|byte| *byte == 0));
    assert_eq!(&header[100..108], b"0000644\0");
    assert_eq!(&header[108..116], b"0000000\0");
    assert_eq!(&header[124..136], b"00000000005\0");
    assert_eq!(&header[136..148], b"00000000000\0");
    assert_eq!(header[156], b'0');
    assert_eq!(&header[257..263], b"ustar\0");
    assert_eq!(&header[263..265], b"00");
    assert!(checksum_matches(header));
    assert_eq!(&out[512..517], b"hello");
    assert!(out[517..].iter().all(|byte| *byte == 0));
}

/// A directory entry carries the directory mode and type flag; a
/// symlink carries its target in the link field.
#[test]
fn canonical_tar_entries_carry_their_kind() {
    let out: Vec<u8> = write_tar(|writer, emit| {
        writer.entry(&EntryKind::Directory, b"dir/", emit);
        writer.entry(&EntryKind::Symlink { target: b"dir/a".to_vec() }, b"link", emit);
    });
    assert_eq!(out.len(), 512 * 4);
    assert_eq!(&out[100..108], b"0000755\0");
    assert_eq!(out[156], b'5');
    assert_eq!(out[512 + 156], b'2');
    assert_eq!(&out[512 + 157..512 + 162], b"dir/a");
    let walked: Recorder = run(&out, 7).expect("walks");
    assert!(walked.events.contains(&Ev::Entry(EntryKind::Directory, b"dir/".to_vec(), 0)));
    assert!(walked.events.contains(&Ev::Entry(EntryKind::Symlink { target: b"dir/a".to_vec() }, b"link".to_vec(), 0)));
}

/// A path too long for the header field rides in a pax record whose
/// decimal length counts itself.
#[test]
fn canonical_tar_long_paths_use_pax_records() {
    let long_path: Vec<u8> = b"x".repeat(150);
    let out: Vec<u8> = write_tar(|writer, emit| {
        writer.begin_member(&long_path, 0, emit);
        writer.end_member(emit);
    });
    assert_eq!(out[156], b'x');
    let record: Vec<u8> = [b"160 path=".as_slice(), long_path.as_slice(), b"\n"].concat();
    assert_eq!(record.len(), 160);
    assert_eq!(&out[512..512 + 160], record.as_slice());
    let walked: Recorder = run(&out, 512).expect("walks");
    assert!(walked.events.contains(&Ev::Member { path: long_path.clone(), depth: 0 }));
}

/// Truncation and a corrupted checksum are malformed, with the walker's
/// offset.
#[test]
fn tar_walker_rejects_truncation_and_bad_checksums() {
    let input: Vec<u8> = tar(&[TarFix::File { path: b"a.txt", bytes: b"hello world" }]);
    match expect_opaque(run(&input[..700], 512)) {
        OpaqueReason::Malformed { offset, .. } => assert_eq!(offset, 700),
        other => panic!("unexpected reason {other:?}"),
    }
    let mut corrupt: Vec<u8> = input.clone();
    corrupt[0] = b'b';
    assert!(matches!(expect_opaque(run(&corrupt, 512)), OpaqueReason::Malformed { .. }));
}

/// Media helpers: extensions are lower-cased, wrapped tar names are
/// recognized, and a prefix identifies its container.
#[test]
fn media_helpers_classify_names_and_prefixes() {
    assert_eq!(extension(b"docs/README.MD"), Some(b"md".to_vec()));
    assert_eq!(extension(b"archive.tar.gz"), Some(b"gz".to_vec()));
    assert_eq!(extension(b"dir.d/mystery"), None);
    assert_eq!(extension(b"trailing."), None);
    assert_eq!(extension(b"name.waytoolongext"), None);
    assert!(is_wrapped_tar_name(b"backup.TAR.GZ"));
    assert!(is_wrapped_tar_name(b"backup.tgz"));
    assert!(!is_wrapped_tar_name(b"backup.gz"));
    assert_eq!(container_by_prefix(&[0x1F, 0x8B, 8]), Some(ContainerKind::Gzip));
    assert_eq!(container_by_prefix(b"PK\x03\x04rest"), Some(ContainerKind::Zip));
    assert_eq!(container_by_prefix(b"PK\x05\x06"), Some(ContainerKind::Zip));
    let archive: Vec<u8> = tar(&[TarFix::File { path: b"a.txt", bytes: b"a" }]);
    assert!(is_tar_prefix(&archive));
    assert_eq!(container_by_prefix(&archive), Some(ContainerKind::Tar));
    assert_eq!(container_by_prefix(b"plain text"), None);
    assert_eq!(ContainerKind::TarGzip.name(), "tar+gzip");
}

#[test]
fn unsafe_paths_are_opaque() {
    let escape: Vec<u8> = tar(&[TarFix::File { path: b"../escape.txt", bytes: b"nope" }]);
    assert_eq!(expect_opaque(run(&escape, 512)), OpaqueReason::UnsafePath);
    let absolute: Vec<u8> = tar(&[TarFix::File { path: b"/etc/passwd", bytes: b"nope" }]);
    assert_eq!(expect_opaque(run(&absolute, 512)), OpaqueReason::UnsafePath);
}

#[test]
fn unrecognized_bytes_are_not_a_container() {
    let result = run(&prose("dec/not-container", 4 << 10), 512);
    assert!(matches!(result, Err(DecomposeError::NotAContainer)));
    let result = run(b"tiny", 512);
    assert!(matches!(result, Err(DecomposeError::NotAContainer)));
}

/// The path rule: length bound, absolute paths, and `..` components
/// (but not names that merely contain two dots).
#[test]
fn the_path_rule_rejects_escapes_only() {
    assert_eq!(check_path(b""), Ok(()));
    assert_eq!(check_path(b"a/b/c.txt"), Ok(()));
    assert_eq!(check_path(b"a/..b/c..d/..."), Ok(()));
    assert_eq!(check_path(b".."), Err(DecomposeError::Opaque(OpaqueReason::UnsafePath)));
    assert_eq!(check_path(b"a/../b"), Err(DecomposeError::Opaque(OpaqueReason::UnsafePath)));
    assert_eq!(check_path(b"a/.."), Err(DecomposeError::Opaque(OpaqueReason::UnsafePath)));
    assert_eq!(check_path(b"/abs"), Err(DecomposeError::Opaque(OpaqueReason::UnsafePath)));
    assert_eq!(check_path(b"\\share"), Err(DecomposeError::Opaque(OpaqueReason::UnsafePath)));
    assert_eq!(check_path(&vec![b'a'; 4097]), Err(DecomposeError::Opaque(OpaqueReason::MetadataOverBound)));
    assert_eq!(check_path(&vec![b'a'; 4096]), Ok(()));
}

/// The reader frames members: ordinals count every entry, an empty
/// member ends at once, data coalesces into one bytes event per byte
/// queue, and a truncated member is reported at finish.
#[test]
fn the_tar_reader_frames_members() {
    let input: Vec<u8> = tar(&[
        TarFix::Dir { path: b"d/" },
        TarFix::File { path: b"d/empty", bytes: b"" },
        TarFix::File { path: b"d/two", bytes: b"ab" },
    ]);
    let mut reader = TarReader::new();
    let mut out = ReaderOut::new();
    for byte in &input {
        reader.push(*byte, &mut out).expect("walks");
    }
    reader.finish(&mut out).expect("complete");
    let events: Vec<ReaderEvent> = out.events;
    assert_eq!(events.len(), 6);
    assert!(matches!(&events[0], ReaderEvent::Entry(EntryKind::Directory, meta) if meta.ordinal == 0 && meta.path == b"d/".to_vec()));
    assert!(matches!(&events[1], ReaderEvent::MemberStart(meta) if meta.ordinal == 1 && meta.size == Some(0)));
    assert!(matches!(&events[2], ReaderEvent::MemberEnd(0)));
    assert!(matches!(&events[3], ReaderEvent::MemberStart(meta) if meta.ordinal == 2 && meta.path == b"d/two".to_vec()));
    assert!(matches!(&events[4], ReaderEvent::Bytes(bytes) if bytes == &b"ab".to_vec()));
    assert!(matches!(&events[5], ReaderEvent::MemberEnd(2)));

    let mut reader = TarReader::new();
    let mut out = ReaderOut::new();
    let cut: usize = 512 + 1;
    for byte in &input[..1024 + cut] {
        reader.push(*byte, &mut out).expect("walks");
    }
    match reader.finish(&mut out) {
        Err(OpaqueReason::Malformed { .. }) => {},
        other => panic!("unexpected outcome {other:?}"),
    }
}

/// The frozen name table: a member's final extension, lower-cased,
/// picks its declared media type.
#[test]
fn member_names_declare_media_types() {
    assert_eq!(named_media_type(b"notes.md"), Some("text/markdown"));
    assert_eq!(named_media_type(b"docs/README.MD"), Some("text/markdown"));
    assert_eq!(named_media_type(b"photo.png"), Some("image/png"));
    assert_eq!(named_media_type(b"a/b/report.DOCX"), Some("application/vnd.openxmlformats-officedocument.wordprocessingml.document"));
    assert_eq!(named_media_type(b"bundle.zip"), Some("application/zip"));
    assert_eq!(named_media_type(b"backup.tar.gz"), Some("application/gzip"));
    assert_eq!(named_media_type(b"data.tgz"), Some("application/gzip"));
    assert_eq!(named_media_type(b"clip.webm"), Some("video/webm"));
    assert_eq!(named_media_type(b"mystery"), None);
    assert_eq!(named_media_type(b"dir.md/file"), None);
    assert_eq!(named_media_type(b"archive.rar"), None);
}

/// A one-member canonical archive walks back event by event: quiet
/// header bytes, the entry on the header's last byte, one data event
/// per member byte, quiet padding and end marker, and the end on the
/// very last byte.
#[test]
fn a_canonical_member_walks_back_event_by_event() {
    let data: Vec<u8> = noise("dec/walk", 1000);
    let out: Vec<u8> = write_tar(|writer, emit| {
        writer.begin_member(b"walk.bin", data.len() as u64, emit);
        writer.member_bytes(&data, emit);
        writer.end_member(emit);
    });
    assert_eq!(out.len(), 512 + 1024 + 1024);
    let mut walker = TarWalker::new();
    let mut payload: Vec<u8> = Vec::new();
    for (index, byte) in out.iter().enumerate() {
        match walker.push(*byte).expect("walks") {
            TarEvent::Quiet => assert!(index < 511 || (1512..2559).contains(&index), "quiet at {index}"),
            TarEvent::Entry(entry) => {
                assert_eq!(index, 511);
                assert_eq!(entry.path, b"walk.bin".to_vec());
                assert_eq!(entry.size, 1000);
            },
            TarEvent::Data(_) => {
                assert!((512..1512).contains(&index), "data at {index}");
                payload.push(*byte);
            },
            TarEvent::End => assert_eq!(index, out.len() - 1),
        }
    }
    walker.finish().expect("complete");
    assert_eq!(payload, data);
}

/// A pax size record overrides the header's size field: the walker
/// reports that many data bytes, strips the padding after them, and
/// reads the next header in its place.
#[test]
fn a_pax_size_override_sets_data_and_padding() {
    let data: Vec<u8> = noise("dec/pax-size", 700);
    let record: &[u8] = b"12 size=700\n";
    let mut input: Vec<u8> = Vec::new();
    input.extend_from_slice(&tar_header(b"PaxHeaders/x", record.len() as u64, b'x', b"", 0));
    input.extend_from_slice(record);
    pad(&mut input);
    input.extend_from_slice(&tar_header(b"f.bin", 10, b'0', b"", 1234));
    input.extend_from_slice(&data);
    pad(&mut input);
    input.extend_from_slice(&tar_header(b"g.txt", 3, b'0', b"", 1234));
    input.extend_from_slice(b"abc");
    pad(&mut input);
    input.extend_from_slice(&[0u8; 1024]);
    let walked: Recorder = run(&input, 512).expect("walks");
    assert_eq!(walked.member_bytes_of(b"f.bin"), data);
    assert_eq!(walked.member_bytes_of(b"g.txt"), b"abc".to_vec());
}

/// A size beyond the eleven octal digits of the size field rides in a
/// pax `size` record; the walker reads the member's true size.
#[test]
fn canonical_tar_large_sizes_use_a_pax_size_record() {
    let size: u64 = 1 << 33;
    let mut emit: Vec<Vec<u8>> = Vec::new();
    let mut writer = CanonicalTarWriter::new();
    writer.begin_member(b"big.bin", size, &mut emit);
    let out: Vec<u8> = emit.concat();
    assert_eq!(out.len(), 3 * 512);
    assert_eq!(out[156], b'x');
    let record: &[u8] = b"19 size=8589934592\n";
    assert_eq!(&out[512..512 + record.len()], record);
    assert_eq!(&out[1024 + 124..1024 + 136], b"00000000000\0");
    let mut walker = TarWalker::new();
    let mut seen: Option<u64> = None;
    for byte in &out {
        if let TarEvent::Entry(entry) = walker.push(*byte).expect("walks") {
            assert_eq!(entry.path, b"big.bin".to_vec());
            seen = Some(entry.size);
        }
    }
    assert_eq!(seen, Some(size));
}

/// Several canonical members walk back in order: each entry with its
/// path and size, then exactly its bytes as data.
#[test]
fn canonical_members_walk_back_in_order() {
    let first: Vec<u8> = noise("dec/walk-1", 700);
    let second: Vec<u8> = Vec::new();
    let third: Vec<u8> = prose("dec/walk-3", 1024);
    let members: Vec<(&[u8], &[u8])> = vec![
        (&b"one.bin"[..], &first[..]),
        (&b"two.bin"[..], &second[..]),
        (&b"dir/three.txt"[..], &third[..]),
    ];
    let out: Vec<u8> = write_tar(|writer, emit| {
        for (path, data) in &members {
            writer.begin_member(path, data.len() as u64, emit);
            writer.member_bytes(data, emit);
            writer.end_member(emit);
        }
    });
    let mut walker = TarWalker::new();
    let mut seen: Vec<(Vec<u8>, u64, Vec<u8>)> = Vec::new();
    let mut ended = false;
    for byte in &out {
        match walker.push(*byte).expect("walks") {
            TarEvent::Entry(entry) => seen.push((entry.path.clone(), entry.size, Vec::new())),
            TarEvent::Data(_) => seen.last_mut().unwrap().2.push(*byte),
            TarEvent::End => ended = true,
            TarEvent::Quiet => {},
        }
    }
    walker.finish().expect("complete");
    assert!(ended);
    assert_eq!(seen.len(), 3);
    for ((path, data), (seen_path, size, bytes)) in members.iter().zip(&seen) {
        assert_eq!(seen_path.as_slice(), *path);
        assert_eq!(*size, data.len() as u64);
        assert_eq!(bytes.as_slice(), *data);
    }
}

/// Entries, long paths and link targets walk back: each item in
/// order with its path (the pax path when long), its kind and size,
/// and each member's exact bytes.
#[test]
fn canonical_items_with_long_names_walk_back() {
    let long_path: Vec<u8> = [b"deep/".repeat(40).as_slice(), b"leaf.txt"].concat();
    let long_target: Vec<u8> = [b"../".repeat(50).as_slice(), b"target"].concat();
    let data: Vec<u8> = prose("dec/items", 3000);
    let out: Vec<u8> = write_tar(|writer, emit| {
        writer.entry(&EntryKind::Directory, b"deep/", emit);
        writer.begin_member(&long_path, data.len() as u64, emit);
        writer.member_bytes(&data, emit);
        writer.end_member(emit);
        writer.entry(&EntryKind::Symlink { target: long_target.clone() }, b"link", emit);
    });
    let mut walker = TarWalker::new();
    let mut seen: Vec<(Vec<u8>, u64, Vec<u8>)> = Vec::new();
    let mut kinds: Vec<TarKind> = Vec::new();
    for byte in &out {
        match walker.push(*byte).expect("walks") {
            TarEvent::Entry(entry) => {
                seen.push((entry.path.clone(), entry.size, Vec::new()));
                kinds.push(entry.kind);
            },
            TarEvent::Data(_) => seen.last_mut().unwrap().2.push(*byte),
            TarEvent::End | TarEvent::Quiet => {},
        }
    }
    walker.finish().expect("complete");
    assert_eq!(seen.len(), 3);
    assert_eq!(seen[0], (b"deep/".to_vec(), 0, Vec::new()));
    assert!(matches!(kinds[0], TarKind::Directory));
    assert_eq!(seen[1], (long_path.clone(), data.len() as u64, data.clone()));
    assert!(matches!(kinds[1], TarKind::Regular));
    assert_eq!(seen[2].0, b"link".to_vec());
    assert!(matches!(&kinds[2], TarKind::Symlink { target } if *target == long_target));
}

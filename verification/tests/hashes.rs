use qdl::vip::calc_hashes;
use qdl::vip::hashes::{HashAction, HashEvent, HashRun};
use qdl::vip::program::{parse_program, ProgramError, XmlElement, XmlNode};
use sha2::{Digest, Sha256};
use std::collections::HashMap;

fn sha(bytes: &[u8]) -> Vec<u8> {
    Sha256::digest(bytes).to_vec()
}

/// The packet that the tests set up for a command.
fn packet(name: &str, args: &Vec<(String, String)>) -> Vec<u8> {
    format!("{} {:?}", name, args).into_bytes()
}

/// Drives a run over files that are read in pieces of at most `piece` bytes.
fn drive(mut run: HashRun, files: &HashMap<&str, Vec<u8>>, piece: usize) -> Vec<Vec<u8>> {
    let mut open: Vec<u8> = vec![];
    loop {
        run = match run.action() {
            HashAction::Finish => return run.into_digests(),
            HashAction::SetupPacket { name, args } => {
                let bytes = packet(&name, args);
                run.step(HashEvent::Packet(&bytes))
            }
            HashAction::OpenFile { filename } => match files.get(filename) {
                Some(contents) => {
                    open = contents.clone();
                    run.step(HashEvent::FileOpened)
                }
                None => run.step(HashEvent::FileMissing),
            },
            HashAction::ReadChunk { max_len } => {
                let n = open.len().min(max_len).min(piece);
                let rest = open.split_off(n);
                let chunk = std::mem::replace(&mut open, rest);
                run.step(HashEvent::Chunk(&chunk))
            }
        }
    }
}

fn element(name: &str, attributes: &[(&str, &str)]) -> XmlNode {
    XmlNode::Element(XmlElement {
        name: name.to_string(),
        attributes: attributes.iter().map(|(a, b)| (a.to_string(), b.to_string())).collect(),
    })
}

fn args(list: &[(&str, &str)]) -> Vec<(String, String)> {
    list.iter().map(|(a, b)| (a.to_string(), b.to_string())).collect()
}

#[test]
fn program_is_parsed_in_document_order() {
    let doc = br#"<?xml version="1.0" ?>
        <!-- before -->
        <data>
          <!-- note -->
          text
          <Program zeta="1" alpha="2" filename="x&amp;y.bin" mid=""><inner a="b"/></Program>
          <?pi some data?>
          <patch/>
        </data>"#;
    let nodes = match parse_program(doc) {
        Ok(nodes) => nodes,
        Err(ProgramError::Xml(e)) => panic!("{}", e),
    };
    let mut elements = vec![];
    let mut others = 0;
    for node in nodes {
        match node {
            XmlNode::Element(e) => elements.push((e.name, e.attributes)),
            XmlNode::Other => others += 1,
        }
    }
    assert_eq!(
        elements,
        vec![
            (
                "Program".to_string(),
                args(&[("zeta", "1"), ("alpha", "2"), ("filename", "x&y.bin"), ("mid", "")])
            ),
            ("patch".to_string(), vec![]),
        ]
    );
    assert_eq!(others, 3);
}

#[test]
fn malformed_program_is_refused() {
    for doc in [&b""[..], b"plain", b"<data>", b"<data></other>", b"<!-- only -->"] {
        assert!(matches!(parse_program(doc), Err(ProgramError::Xml(_))));
        assert!(matches!(calc_hashes(doc, 16), Err(ProgramError::Xml(_))));
    }
}

#[test]
fn first_root_counts() {
    let run = match calc_hashes(b"<a><One/></a><b><two/><three/></b>", 16) {
        Ok(run) => run,
        Err(ProgramError::Xml(e)) => panic!("{}", e),
    };
    assert_eq!(drive(run, &HashMap::new(), 1), vec![sha(&packet("one", &vec![]))]);
}

#[test]
fn empty_program_has_no_digests() {
    let run = match calc_hashes(b"<data><!-- nothing --></data>", 16) {
        Ok(run) => run,
        Err(ProgramError::Xml(e)) => panic!("{}", e),
    };
    assert!(matches!(run.action(), HashAction::Finish));
    assert!(run.into_digests().is_empty());
}

#[test]
fn whole_program() {
    let doc = br#"<data>
        <PROGRAM filename="a.bin" start="0"/>
        <program filename="missing.bin"/>
        <program filename=""/>
        <Erase start="5"/>
        <program filename="empty.bin"/>
    </data>"#;
    let mut files = HashMap::new();
    files.insert("a.bin", (0u8..10).collect::<Vec<u8>>());
    files.insert("empty.bin", vec![]);
    let run = match calc_hashes(doc, 4) {
        Ok(run) => run,
        Err(ProgramError::Xml(e)) => panic!("{}", e),
    };
    let expected = vec![
        sha(&packet("program", &args(&[("filename", "a.bin"), ("start", "0")]))),
        sha(&[0, 1, 2, 3]),
        sha(&[4, 5, 6, 7]),
        sha(&[8, 9]),
        sha(&packet("program", &args(&[("filename", "missing.bin")]))),
        sha(&packet("program", &args(&[("filename", "")]))),
        sha(&packet("erase", &args(&[("start", "5")]))),
        sha(&packet("program", &args(&[("filename", "empty.bin")]))),
    ];
    assert_eq!(drive(run, &files, usize::MAX), expected);
}

#[test]
fn short_reads_are_hashed_as_they_come() {
    let nodes = vec![XmlNode::Other, element("p", &[("filename", "f")]), XmlNode::Other];
    let mut files = HashMap::new();
    files.insert("f", vec![1u8, 2, 3, 4, 5]);
    let got = drive(HashRun::new(nodes, 100), &files, 2);
    let expected = vec![
        sha(&packet("p", &args(&[("filename", "f")]))),
        sha(&[1, 2]),
        sha(&[3, 4]),
        sha(&[5]),
    ];
    assert_eq!(got, expected);
}

#[test]
fn empty_buffer_reads_nothing() {
    let nodes = vec![element("p", &[("filename", "f")])];
    let mut files = HashMap::new();
    files.insert("f", vec![1u8, 2, 3]);
    let got = drive(HashRun::new(nodes, 0), &files, usize::MAX);
    assert_eq!(got, vec![sha(&packet("p", &args(&[("filename", "f")])))]);
}

#[test]
fn requests_come_in_order() {
    let nodes = vec![element("ReAd\u{c4}", &[("k", "V"), ("filename", "img")]), element("b", &[])];
    let run = HashRun::new(nodes, 7);
    match run.action() {
        HashAction::SetupPacket { name, args: given } => {
            assert_eq!(name, "read\u{c4}");
            assert_eq!(*given, args(&[("k", "V"), ("filename", "img")]));
        }
        _ => panic!("no packet asked for"),
    }
    let run = run.step(HashEvent::Packet(b"one"));
    assert!(matches!(run.action(), HashAction::OpenFile { filename: "img" }));
    let run = run.step(HashEvent::FileOpened);
    assert!(matches!(run.action(), HashAction::ReadChunk { max_len: 7 }));
    let run = run.step(HashEvent::Chunk(b"two"));
    assert!(matches!(run.action(), HashAction::ReadChunk { max_len: 7 }));
    let run = run.step(HashEvent::Chunk(b""));
    assert!(matches!(run.action(), HashAction::SetupPacket { .. }));
    let run = run.step(HashEvent::Packet(b"three"));
    assert!(matches!(run.action(), HashAction::Finish));
    assert_eq!(run.into_digests(), vec![sha(b"one"), sha(b"two"), sha(b"three")]);
}

#[test]
fn each_element_is_asked_for_in_turn() {
    let program = [("One", "a"), ("TWO", ""), ("three", "b")];
    let nodes = program
        .iter()
        .flat_map(|(name, file)| [XmlNode::Other, element(name, &[("filename", file)])])
        .collect();
    let mut run = HashRun::new(nodes, 3);
    for (name, file) in program {
        match run.action() {
            HashAction::SetupPacket { name: asked, args: given } => {
                assert_eq!(asked, name.to_ascii_lowercase());
                assert_eq!(*given, args(&[("filename", file)]));
            }
            _ => panic!("no packet asked for"),
        }
        run = run.step(HashEvent::Packet(name.as_bytes()));
        if !file.is_empty() {
            match run.action() {
                HashAction::OpenFile { filename } => assert_eq!(filename, file),
                _ => panic!("no file asked for"),
            }
            run = run.step(HashEvent::FileOpened);
            for piece in [&b"x"[..], b"yyy", b""] {
                assert!(matches!(run.action(), HashAction::ReadChunk { max_len: 3 }));
                run = run.step(HashEvent::Chunk(piece));
            }
        }
    }
    assert!(matches!(run.action(), HashAction::Finish));
    assert_eq!(run.into_digests().len(), 7);
}

#[test]
fn attributes_are_found_by_name() {
    let e = match element("p", &[("file", "a"), ("filename", "b"), ("FILENAME", "c")]) {
        XmlNode::Element(e) => e,
        XmlNode::Other => unreachable!(),
    };
    assert_eq!(e.attribute("file"), Some("a"));
    assert_eq!(e.attribute("FILENAME"), Some("c"));
    assert_eq!(e.attribute("filenam"), None);
    assert_eq!(e.file(), Some("b"));
}

#[test]
fn recorded_digests_fill_proper_tables() {
    let nodes = (0..60).map(|_| element("erase", &[])).collect();
    let digests = drive(HashRun::new(nodes, 1), &HashMap::new(), 1);
    assert_eq!(digests.len(), 60);
    assert!(digests.iter().all(|d| d.len() == 32));
    let res = qdl::vip::gen_hash_tables(digests, 0);
    assert_eq!(res.signme.len(), 232 + res.first_table_size as usize);
}

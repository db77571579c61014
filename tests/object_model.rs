use git_starter_rust::commit::{GitCommit, User};
use git_starter_rust::error::GitObjectError;
use git_starter_rust::object::{GitNodeType, GitObject, GitTreeNode};
use git_starter_rust::parse::{load_object, parse, parse_blob, parse_tree, parse_tree_payload};
use git_starter_rust::snapshot::{blob_entry, is_control_dir, tree_entry};

fn node(name: &str, fill: u8, mode: u32, kind: GitNodeType) -> GitTreeNode {
    GitTreeNode::new(name.to_string(), &[fill; 20], mode, kind)
}

fn tree_records(o: &GitObject) -> Vec<(u32, GitNodeType, Vec<u8>, String)> {
    match o {
        GitObject::Tree(nodes) => nodes
            .iter()
            .map(|n| (n.mode, n.node_type, n.hash.clone(), n.filename.clone()))
            .collect(),
        GitObject::Blob(_) => panic!("expected a tree"),
    }
}

#[test]
fn test_blob_hash() {
    let o = GitObject::Blob(String::from("hogehoge\n").as_bytes().to_vec());
    println!("{}", o.to_string());
    assert_eq!(o.to_string(), "blob 9\0hogehoge\n");
    assert_eq!(o.to_hash_str(), "e9bc11025c28829eedf6d30cd3b65628648cad5f");
}

#[test]
fn test_tree_hash() {
    let o = GitObject::Blob(String::from("hogehoge\n").as_bytes().to_vec());
    let t = GitObject::Tree(vec![GitTreeNode::new(
        "hogehoge".to_string(),
        &o.to_hash(),
        100644,
        GitNodeType::Tree,
    )]);

    let hash = o.to_hash();
    println!("{}", String::from_utf8_lossy(&t.pretty_print()));

    let content = t.to_node_content();
    assert_eq!(content.to_vec()[..5], b"tree "[..]);
    assert_eq!(content.to_vec()[8..14], b"100644"[..]);
    assert_eq!(content.to_vec()[8..15], b"100644 "[..]);
    assert_eq!(content.to_vec()[15..23], b"hogehoge"[..]);
    assert_eq!(content.to_vec()[23], b'\0');
    assert_eq!(content.to_vec()[24..], hash[..]);
    // header "tree 36\0" (8 bytes) + "100644 hogehoge\0" (16) + raw hash (20)
    assert_eq!(content.len(), 44);
}

#[test]
fn blob_encoding_and_size() {
    let o = GitObject::Blob(b"hogehoge\n".to_vec());
    assert_eq!(o.to_node_content(), b"blob 9\0hogehoge\n".to_vec());
    assert_eq!(o.get_content(), b"hogehoge\n".to_vec());
    assert_eq!(o.size(), 9);
    assert_eq!(o.type_str(), "blob");
    assert_eq!(o.to_node_type(), GitNodeType::Blob);
    assert_eq!(o.to_hash().len(), 20);
}

#[test]
fn empty_blob_hash() {
    let o = GitObject::Blob(Vec::new());
    assert_eq!(o.to_node_content(), b"blob 0\0".to_vec());
    assert_eq!(o.to_hash_str(), "e69de29bb2d1d6434b8b29ae775ad8c2e48c5391");
}

#[test]
fn tree_payload_layout() {
    let o = GitObject::Blob(b"hogehoge\n".to_vec());
    let h = o.to_hash();
    let t = GitObject::Tree(vec![GitTreeNode::new("hogehoge".to_string(), &h, 100644, GitNodeType::Blob)]);
    let payload = t.get_content();
    assert_eq!(payload[..16], b"100644 hogehoge\0"[..]);
    assert_eq!(payload[16..], h[..]);
    assert_eq!(payload.len(), 36);
    assert_eq!(t.size(), 36);
    assert_eq!(t.to_node_content()[..8], b"tree 36\0"[..]);
    assert_eq!(t.type_str(), "tree");
    assert_eq!(t.to_node_type(), GitNodeType::Tree);
}

#[test]
fn empty_tree_encodes_and_parses_back() {
    let t = GitObject::new_tree(Vec::new());
    let enc = t.to_node_content();
    assert_eq!(enc, b"tree 0\0".to_vec());
    let back = parse(&enc).unwrap();
    assert!(tree_records(&back).is_empty());
    assert_eq!(t.to_hash_str(), "4b825dc642cb6eb9a060e54bf8d69288fbee4904");
}

#[test]
fn tree_parses_back_to_its_records() {
    let t = GitObject::new_tree(vec![
        node("b.txt", 7, 100644, GitNodeType::Blob),
        node("a dir", 9, 40000, GitNodeType::Tree),
        node("\u{e9}t\u{e9}", 0, 100644, GitNodeType::Blob),
    ]);
    let back = parse(&t.to_node_content()).unwrap();
    assert_eq!(tree_records(&back), tree_records(&t));
    assert_eq!(back.to_hash(), t.to_hash());
}

#[test]
fn blob_round_trip_through_store_bytes() {
    let content = b"line one\nline two\n\x00\xff binary".to_vec();
    let o = GitObject::Blob(content.clone());
    let stored = o.stored_bytes();
    assert_ne!(stored, o.to_node_content());
    let back = load_object(&stored).unwrap();
    assert_eq!(back.get_content(), content);
    // what cat-file -p prints is the original content, byte for byte
    assert_eq!(back.pretty_print(), content);
}

#[test]
fn tree_round_trip_through_store_bytes() {
    let t = GitObject::new_tree(vec![node("x", 1, 100644, GitNodeType::Blob), node("y", 2, 40000, GitNodeType::Tree)]);
    let back = load_object(&t.stored_bytes()).unwrap();
    assert_eq!(tree_records(&back), tree_records(&t));
}

#[test]
fn tree_order_does_not_change_encoding() {
    let a = GitObject::new_tree(vec![
        node("zeta", 1, 100644, GitNodeType::Blob),
        node("alpha", 2, 40000, GitNodeType::Tree),
        node("Beta", 3, 100644, GitNodeType::Blob),
    ]);
    let b = GitObject::new_tree(vec![
        node("alpha", 2, 40000, GitNodeType::Tree),
        node("Beta", 3, 100644, GitNodeType::Blob),
        node("zeta", 1, 100644, GitNodeType::Blob),
    ]);
    assert_eq!(a.to_node_content(), b.to_node_content());
    assert_eq!(a.to_hash_str(), b.to_hash_str());
    let names: Vec<String> = tree_records(&a).into_iter().map(|r| r.3).collect();
    assert_eq!(names, vec!["Beta", "alpha", "zeta"]);
}

#[test]
fn tree_order_is_bytewise() {
    let t = GitObject::new_tree(vec![
        node("ab", 1, 100644, GitNodeType::Blob),
        node("a", 2, 100644, GitNodeType::Blob),
        node("\u{e9}", 3, 100644, GitNodeType::Blob),
        node("b", 4, 100644, GitNodeType::Blob),
    ]);
    let names: Vec<String> = tree_records(&t).into_iter().map(|r| r.3).collect();
    assert_eq!(names, vec!["a", "ab", "b", "\u{e9}"]);
}

#[test]
fn pretty_print_tree_lines() {
    let t = GitObject::new_tree(vec![node("f", 0xab, 100644, GitNodeType::Blob), node("d", 1, 40000, GitNodeType::Tree)]);
    let text = String::from_utf8(t.pretty_print()).unwrap();
    let expected = format!(
        "40000 tree {}\td\n100644 blob {}\tf\n",
        "01".repeat(20),
        "ab".repeat(20)
    );
    assert_eq!(text, expected);
}

#[test]
fn tree_node_constructor_and_type_str() {
    let n = GitTreeNode::new("name".to_string(), &[5u8; 20], 40000, GitNodeType::Tree);
    assert_eq!(n.filename, "name");
    assert_eq!(n.hash, vec![5u8; 20]);
    assert_eq!(n.mode, 40000);
    assert_eq!(n.type_str(), "tree");
    assert_eq!(node("x", 0, 100644, GitNodeType::Blob).type_str(), "blob");
}

fn is_parse_error<T>(r: Result<T, GitObjectError>) -> bool {
    matches!(r, Err(GitObjectError::ParseError { .. }))
}

#[test]
fn malformed_objects_are_parse_errors() {
    assert!(is_parse_error(parse(b"")));
    assert!(is_parse_error(parse(b"blob")));
    assert!(is_parse_error(parse(b"blob 3")));
    assert!(is_parse_error(parse(b"blob x\0abc")));
    assert!(is_parse_error(parse(b"blob 4\0abc")));
    assert!(is_parse_error(parse(b"commit 0\0")));
    assert!(is_parse_error(parse(b"tree 6\0100644")));
    assert!(is_parse_error(parse(b"tree 9\0100644 a\0")));
    assert!(is_parse_error(parse(b"tree 11\010x644 a\0zz")));
    let mut truncated = b"tree 28\0100644 a\0".to_vec();
    truncated.extend_from_slice(&[1u8; 19]);
    assert!(is_parse_error(parse(&truncated)));
    let mut bad_name = b"tree 30\0100644 \xff\xfe\0".to_vec();
    bad_name.extend_from_slice(&[1u8; 20]);
    assert!(is_parse_error(parse(&bad_name)));
    let mut big_mode = b"tree 33\04294967296 a\0".to_vec();
    big_mode.extend_from_slice(&[1u8; 20]);
    assert!(is_parse_error(parse(&big_mode)));
}

#[test]
fn blob_parse_keeps_payload() {
    let o = parse(b"blob 3\0a\0b").unwrap();
    assert_eq!(o.get_content(), b"a\0b".to_vec());
}

#[test]
fn tree_entry_mode_derives_node_type() {
    let mut bytes = b"tree 57\040000 d\0".to_vec();
    bytes.extend_from_slice(&[1u8; 20]);
    bytes.extend_from_slice(b"100755 x\0");
    bytes.extend_from_slice(&[2u8; 20]);
    let o = parse(&bytes).unwrap();
    let recs = tree_records(&o);
    assert_eq!(recs.len(), 2);
    assert_eq!((recs[0].0, recs[0].1), (40000, GitNodeType::Tree));
    assert_eq!((recs[1].0, recs[1].1), (100755, GitNodeType::Blob));
    assert_eq!(recs[1].2, vec![2u8; 20]);
}

#[test]
fn corrupt_store_bytes_are_reported() {
    assert!(matches!(load_object(b"not zlib at all"), Err(GitObjectError::CorruptObjectError(_))));
    let o = GitObject::Blob(b"abc".to_vec());
    let stored = o.stored_bytes();
    let truncated = &stored[..stored.len() / 2];
    assert!(load_object(truncated).is_err());
}

#[test]
fn storage_path_of_blob() {
    let o = GitObject::Blob(b"hogehoge\n".to_vec());
    assert_eq!(o.storage_path(), ".git/objects/e9/bc11025c28829eedf6d30cd3b65628648cad5f");
}

#[test]
fn same_content_same_location() {
    let a = GitObject::Blob(b"same".to_vec());
    let b = GitObject::Blob(b"same".to_vec());
    assert_eq!(a.storage_path(), b.storage_path());
    assert_eq!(a.to_hash_str(), b.to_hash_str());
    assert_ne!(a.storage_path(), GitObject::Blob(b"other".to_vec()).storage_path());
}

#[test]
fn snapshot_steps() {
    let (fnode, blob) = blob_entry("a.txt".to_string(), b"hogehoge\n".to_vec());
    assert_eq!(fnode.mode, 100644);
    assert_eq!(fnode.node_type, GitNodeType::Blob);
    assert_eq!(fnode.hash, blob.to_hash());
    assert_eq!(blob.to_hash_str(), "e9bc11025c28829eedf6d30cd3b65628648cad5f");
    let (dnode, tree) = tree_entry("sub".to_string(), vec![fnode]);
    assert_eq!(dnode.mode, 40000);
    assert_eq!(dnode.node_type, GitNodeType::Tree);
    assert_eq!(dnode.hash, tree.to_hash());
    assert_eq!(dnode.filename, "sub");
    assert!(is_control_dir(".git"));
    assert!(!is_control_dir(".gitignore"));
    assert!(!is_control_dir("src"));
}

fn snapshot_root(order: &[usize]) -> String {
    let files = [("b", b"bee".to_vec()), ("a", b"ay".to_vec()), ("c", b"sea".to_vec())];
    let mut nodes = Vec::new();
    for &i in order {
        let (n, _) = blob_entry(files[i].0.to_string(), files[i].1.clone());
        nodes.push(n);
    }
    let (inner, _) = blob_entry("inner".to_string(), b"deep".to_vec());
    let (d, _) = tree_entry("dir".to_string(), vec![inner]);
    nodes.push(d);
    GitObject::new_tree(nodes).to_hash_str()
}

#[test]
fn snapshot_root_hash_is_repeatable() {
    let first = snapshot_root(&[0, 1, 2]);
    let second = snapshot_root(&[2, 0, 1]);
    assert_eq!(first, second);
    assert_eq!(first, snapshot_root(&[0, 1, 2]));
}

fn user(name: &str, email: &str) -> User {
    User { name: name.to_string(), email: email.to_string() }
}

#[test]
fn commit_encoding() {
    let tree = "4b825dc642cb6eb9a060e54bf8d69288fbee4904".to_string();
    let c = GitCommit::new(
        tree.clone(),
        None,
        user("zigen", "zigen@horol.org"),
        user("zigen", "zigen@horol.org"),
        1700000000,
        "+0900".to_string(),
        "first".to_string(),
    );
    let payload = format!(
        "tree {}\nauthor zigen zigen@horol.org 1700000000 +0900\ncommitter zigen zigen@horol.org 1700000000 +0900\n\nfirst\n",
        tree
    );
    assert_eq!(c.get_content(), payload.as_bytes().to_vec());
    let mut enc = format!("commit {}\0", payload.len()).into_bytes();
    enc.extend_from_slice(payload.as_bytes());
    assert_eq!(c.to_node_content(), enc);
    assert_eq!(c.to_hash_str().len(), 40);
    assert!(c.storage_path().starts_with(".git/objects/"));
    assert!(load_object(&c.stored_bytes()).is_err());
}

#[test]
fn commit_with_parent() {
    let c = GitCommit::new(
        "t".to_string(),
        Some("p".to_string()),
        user("a", "a@x"),
        user("c", "c@y"),
        0,
        "+0000".to_string(),
        "m".to_string(),
    );
    assert_eq!(
        c.get_content(),
        b"tree t\nparent p\nauthor a a@x 0 +0000\ncommitter c c@y 0 +0000\n\nm\n".to_vec()
    );
}

fn error_offset<T>(r: Result<T, GitObjectError>) -> usize {
    match r {
        Err(GitObjectError::ParseError { offset, .. }) => offset,
        _ => panic!("expected a parse error"),
    }
}

#[test]
fn parse_error_offsets() {
    assert_eq!(error_offset(parse(b"blob")), 4);
    assert_eq!(error_offset(parse(b"blob 3")), 6);
    assert_eq!(error_offset(parse(b"blob x\0abc")), 5);
    assert_eq!(error_offset(parse(b"blob 4\0abc")), 5);
    assert_eq!(error_offset(parse(b"commit 0\0")), 0);
    assert_eq!(error_offset(parse(b"tree 6\0100644")), 7);
    let mut second_bad = b"tree 36\0100644 a\0".to_vec();
    second_bad.extend_from_slice(&[1u8; 20]);
    second_bad.extend_from_slice(b"9x a\0zz");
    assert_eq!(error_offset(parse(&second_bad)), 37);
    assert_eq!(error_offset(parse_tree(&second_bad)), 37);
}

#[test]
fn parse_blob_reads_whole_bytes() {
    let o = parse_blob(b"blob 9\0hogehoge\n").unwrap();
    assert_eq!(o.get_content(), b"hogehoge\n".to_vec());
    assert!(is_parse_error(parse_blob(b"blob")));
    assert!(is_parse_error(parse_blob(b"abc")));
    assert!(is_parse_error(parse_blob(b"blob 3abc")));
    assert_eq!(error_offset(parse_blob(b"tree 0\0")), 0);
}

#[test]
fn parse_tree_reads_whole_bytes() {
    let empty = parse_tree(b"tree 0\0").unwrap();
    assert!(tree_records(&empty).is_empty());
    let t = GitObject::new_tree(vec![
        node("b", 2, 100644, GitNodeType::Blob),
        node("a", 1, 40000, GitNodeType::Tree),
    ]);
    let back = parse_tree(&t.to_node_content()).unwrap();
    assert_eq!(tree_records(&back), tree_records(&t));
    assert!(is_parse_error(parse_tree(b"blob 0\0")));
    assert!(is_parse_error(parse_tree(b"tree 1\0")));
}

#[test]
fn tree_payload_records() {
    let t = GitObject::new_tree(vec![node("x", 3, 100644, GitNodeType::Blob)]);
    let content = t.to_node_content();
    let records = parse_tree_payload(&content, 8).unwrap();
    assert_eq!(records.len(), 1);
    assert_eq!(records[0].filename, "x");
    assert!(parse_tree_payload(&content, content.len()).unwrap().is_empty());
    assert_eq!(error_offset(parse_tree_payload(&content, 17)), 17);
}

#[test]
fn pending_write_is_write_once() {
    let o = GitObject::Blob(b"once".to_vec());
    assert!(o.pending_write(true).is_none());
    let (path, bytes) = o.pending_write(false).unwrap();
    assert_eq!(path, o.storage_path());
    assert_eq!(load_object(&bytes).unwrap().get_content(), b"once".to_vec());
    let again = GitObject::Blob(b"once".to_vec());
    assert_eq!(again.pending_write(false).unwrap().0, path);
    let c = GitCommit::new(
        "t".to_string(),
        None,
        user("a", "a@x"),
        user("a", "a@x"),
        1,
        "+0000".to_string(),
        "m".to_string(),
    );
    assert!(c.pending_write(true).is_none());
    assert_eq!(c.pending_write(false).unwrap().0, c.storage_path());
}

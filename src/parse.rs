use crate::codec::{decompress, inflated};
use crate::decimal::{parse_number, read_number};
use crate::error::{parse_error, parse_error_at, GitObjectError};
use crate::hex::HASH_LEN;
use crate::object::{
    blob_name, kind_name, kind_of_mode, push_kind_name, nodes_view, tree_name, GitNodeType, GitObject, GitTreeNode,
    ObjectView, TreeEntryView, NUL, SPACE, TREE_MODE,
};
use std::string::FromUtf8Error;
use vstd::prelude::*;
use vstd::slice::slice_to_vec;
use vstd::utf8::{decode_utf8, encode_utf8, valid_utf8};

verus! {

#[verifier::external_type_specification]
#[verifier::external_body]
pub struct ExFromUtf8Error(FromUtf8Error);

/// The first index at or after `from` where `s` holds `x`.
pub open spec fn find_byte(s: Seq<u8>, x: u8, from: int) -> Option<int>
    decreases s.len() - from,
{
    if from < 0 || from >= s.len() {
        None
    } else if s[from] == x {
        Some(from)
    } else {
        find_byte(s, x, from + 1)
    }
}

/// The tree record that starts at `off` in payload `p`, with the offset just
/// past it: a decimal mode up to the first space, a UTF-8 filename up to the
/// next NUL, then exactly 20 raw hash bytes.
pub open spec fn parse_entry(p: Seq<u8>, off: int) -> Option<(TreeEntryView, int)> {
    match find_byte(p, SPACE, off) {
        None => None,
        Some(sp) => match find_byte(p, NUL, sp + 1) {
            None => None,
            Some(nul) => {
                let name = p.subrange(sp + 1, nul);
                let end = nul + 1 + HASH_LEN;
                match read_number(p.subrange(off, sp), u32::MAX as nat) {
                    None => None,
                    Some(mode) => if end > p.len() || !valid_utf8(name) {
                        None
                    } else {
                        Some(
                            (
                                TreeEntryView {
                                    mode: mode as u32,
                                    node_type: kind_of_mode(mode as u32),
                                    hash: p.subrange(nul + 1, end),
                                    filename: decode_utf8(name),
                                },
                                end,
                            ),
                        )
                    },
                }
            },
        },
    }
}

/// The records of payload `p` from offset `off` to its end, if they all parse.
pub open spec fn parse_entries(p: Seq<u8>, off: int) -> Option<Seq<TreeEntryView>>
    decreases p.len() - off,
{
    if off < 0 || off >= p.len() {
        Some(Seq::empty())
    } else {
        match parse_entry(p, off) {
            None => None,
            Some((e, next)) => if next <= off || next > p.len() {
                None
            } else {
                match parse_entries(p, next) {
                    None => None,
                    Some(rest) => Some(seq![e] + rest),
                }
            },
        }
    }
}

/// Where a tree's records go wrong: the offset of the first record from
/// `off` on that does not parse (meaningful only where `parse_entries` fails).
pub open spec fn entries_error_at(p: Seq<u8>, off: int) -> int
    decreases p.len() - off,
{
    if off < 0 || off >= p.len() {
        off
    } else {
        match parse_entry(p, off) {
            None => off,
            Some((e, next)) => if next <= off || next > p.len() {
                off
            } else {
                entries_error_at(p, next)
            },
        }
    }
}

/// The header of canonical bytes `c`: the index of the space after the type
/// name and of the NUL after the length, where the length is a decimal
/// number equal to the count of bytes after that NUL.
pub open spec fn parse_header(c: Seq<u8>) -> Option<(int, int)> {
    match find_byte(c, SPACE, 0) {
        None => None,
        Some(sp) => match find_byte(c, NUL, sp + 1) {
            None => None,
            Some(nul) => match read_number(c.subrange(sp + 1, nul), u64::MAX as nat) {
                None => None,
                Some(n) => if n != c.len() - (nul + 1) {
                    None
                } else {
                    Some((sp, nul))
                },
            },
        },
    }
}

/// Where a malformed header goes wrong: at the end of the bytes where its
/// space or NUL is missing, else at its length field.
pub open spec fn header_error_at(c: Seq<u8>) -> int {
    match find_byte(c, SPACE, 0) {
        None => c.len() as int,
        Some(sp) => match find_byte(c, NUL, sp + 1) {
            None => c.len() as int,
            Some(_) => sp + 1,
        },
    }
}

/// The object that canonical bytes `c` encode: a type name up to the first
/// space, a decimal length up to the next NUL that equals the number of
/// bytes after it, and a blob or tree payload.
pub open spec fn parse_object(c: Seq<u8>) -> Option<ObjectView> {
    match parse_header(c) {
        None => None,
        Some((sp, nul)) => {
            let kind = c.subrange(0, sp);
            if kind == blob_name() {
                Some(ObjectView::Blob(c.subrange(nul + 1, c.len() as int)))
            } else if kind == tree_name() {
                match parse_entries(c, nul + 1) {
                    Some(es) => Some(ObjectView::Tree(es)),
                    None => None,
                }
            } else {
                None
            }
        },
    }
}

/// Where bytes that do not parse as an object go wrong: in the header, at
/// the first malformed record of a tree, or at the start where the type
/// name is unknown.
pub open spec fn error_offset(c: Seq<u8>) -> int {
    match parse_header(c) {
        None => header_error_at(c),
        Some((sp, nul)) => if c.subrange(0, sp) == tree_name() {
            entries_error_at(c, nul + 1)
        } else {
            0
        },
    }
}

/// Where bytes that do not parse as a blob go wrong: in the header, or at the
/// start where the type name is not `blob`.
pub open spec fn blob_error_offset(c: Seq<u8>) -> int {
    match parse_header(c) {
        None => header_error_at(c),
        Some(_) => 0,
    }
}

/// Relies on `String::from_utf8`: it succeeds exactly on valid UTF-8, and the
/// string then holds those bytes.
#[verifier::external_body]
fn string_from_utf8(bytes: Vec<u8>) -> (r: Result<String, FromUtf8Error>)
    ensures
        match r {
            Ok(s) => valid_utf8(bytes@) && encode_utf8(s@) == bytes@,
            Err(_) => !valid_utf8(bytes@),
        },
{
    String::from_utf8(bytes)
}

/// The first index at or after `from` where `s` holds `x`.
pub fn find(s: &[u8], x: u8, from: usize) -> (r: Option<usize>)
    requires
        from <= s@.len(),
    ensures
        match r {
            Some(i) => find_byte(s@, x, from as int) == Some(i as int) && from <= i < s@.len(),
            None => find_byte(s@, x, from as int) is None,
        },
{
    let mut i = from;
    while i < s.len()
        invariant
            from <= i <= s@.len(),
            find_byte(s@, x, from as int) == find_byte(s@, x, i as int),
        decreases s@.len() - i,
    {
        if s[i] == x {
            return Some(i);
        }
        i = i + 1;
    }
    None
}

fn node_kind(mode: u32) -> (k: GitNodeType)
    ensures
        k == kind_of_mode(mode),
{
    if mode == TREE_MODE {
        GitNodeType::Tree
    } else {
        GitNodeType::Blob
    }
}

/// Whether `a` and `b` hold the same bytes.
fn bytes_equal(a: &[u8], b: &[u8]) -> (r: bool)
    ensures
        r == (a@ == b@),
{
    if a.len() != b.len() {
        return false;
    }
    let mut i: usize = 0;
    while i < a.len()
        invariant
            i <= a@.len(),
            a@.len() == b@.len(),
            forall|k: int| 0 <= k < i ==> a@[k] == b@[k],
        decreases a@.len() - i,
    {
        if a[i] != b[i] {
            return false;
        }
        i = i + 1;
    }
    assert(a@ =~= b@);
    true
}

/// Whether the type name `content[..sp]` is that of `kind`.
fn names_kind(content: &[u8], sp: usize, kind: GitNodeType) -> (r: bool)
    requires
        sp <= content@.len(),
    ensures
        r == (content@.subrange(0, sp as int) == kind_name(kind)),
{
    let mut name: Vec<u8> = Vec::new();
    push_kind_name(&mut name, kind);
    assert(name@ =~= kind_name(kind));
    bytes_equal(&content[0..sp], name.as_slice())
}

/// Reads the header of canonical bytes: the index of the space that ends
/// the type name and of the NUL that ends the length.
pub fn read_header(content: &[u8]) -> (r: Result<(usize, usize), GitObjectError>)
    ensures
        match r {
            Ok((sp, nul)) => parse_header(content@) == Some((sp as int, nul as int)) && sp < nul
                < content@.len(),
            Err(e) => parse_header(content@) is None && parse_error_at(
                e,
                header_error_at(content@),
            ),
        },
{
    let total = content.len();
    let sp = match find(content, SPACE, 0) {
        Some(i) => i,
        None => {
            return Err(parse_error("object header without a space", total));
        },
    };
    let nul = match find(content, NUL, sp + 1) {
        Some(i) => i,
        None => {
            return Err(parse_error("object header without a NUL", total));
        },
    };
    match parse_number(content, sp + 1, nul, u64::MAX) {
        Some(n) => {
            if n != (total - (nul + 1)) as u64 {
                return Err(parse_error("object length does not match its payload", sp + 1));
            }
        },
        None => {
            return Err(parse_error("object header with a malformed length", sp + 1));
        },
    }
    Ok((sp, nul))
}

proof fn lemma_kind_names_differ()
    ensures
        blob_name() != tree_name(),
{
    assert(blob_name()[0] != tree_name()[0]);
}

/// Reads a blob from its canonical bytes, header included; anything else is
/// a `ParseError`.
pub fn parse_blob(content: &[u8]) -> (r: Result<GitObject, GitObjectError>)
    ensures
        match r {
            Ok(o) => parse_object(content@) == Some(o@) && o@ is Blob,
            Err(e) => !(parse_object(content@) matches Some(ObjectView::Blob(_)))
                && parse_error_at(e, blob_error_offset(content@)),
        },
{
    proof {
        lemma_kind_names_differ();
    }
    let (sp, nul) = read_header(content)?;
    if !names_kind(content, sp, GitNodeType::Blob) {
        return Err(parse_error("not a blob", 0));
    }
    let total = content.len();
    Ok(GitObject::Blob(slice_to_vec(&content[nul + 1..total])))
}

/// Reads the records of a tree from `content[start..]`; a part that does not
/// split into whole records is a `ParseError` at the record that fails.
pub fn parse_tree_payload(content: &[u8], start: usize) -> (r: Result<
    Vec<GitTreeNode>,
    GitObjectError,
>)
    requires
        start <= content@.len(),
    ensures
        match r {
            Ok(v) => parse_entries(content@, start as int) == Some(nodes_view(v@)),
            Err(e) => parse_entries(content@, start as int) is None && parse_error_at(
                e,
                entries_error_at(content@, start as int),
            ),
        },
{
    let ghost p = content@;
    let mut nodes: Vec<GitTreeNode> = Vec::new();
    let mut off: usize = start;
    assert(nodes_view(nodes@) =~= Seq::<TreeEntryView>::empty());
    while off < content.len()
        invariant
            p == content@,
            start <= off <= p.len(),
            parse_entries(p, start as int) == match parse_entries(p, off as int) {
                Some(rest) => Some(nodes_view(nodes@) + rest),
                None => None,
            },
            entries_error_at(p, start as int) == entries_error_at(p, off as int),
        decreases p.len() - off,
    {
        let sp = match find(content, SPACE, off) {
            Some(i) => i,
            None => {
                return Err(parse_error("tree record without a space after its mode", off));
            },
        };
        let nul = match find(content, NUL, sp + 1) {
            Some(i) => i,
            None => {
                return Err(parse_error("tree record without a NUL after its filename", off));
            },
        };
        let mode = match parse_number(content, off, sp, u32::MAX as u64) {
            Some(m) => m as u32,
            None => {
                return Err(parse_error("tree record with a malformed mode", off));
            },
        };
        if content.len() - nul < HASH_LEN + 1 {
            return Err(parse_error("tree record with a truncated hash", off));
        }
        let end = nul + 1 + HASH_LEN;
        let filename = match string_from_utf8(slice_to_vec(&content[sp + 1..nul])) {
            Ok(s) => s,
            Err(_) => {
                return Err(parse_error("tree record whose filename is not UTF-8", off));
            },
        };
        proof {
            vstd::utf8::encode_utf8_decode_utf8(filename@);
        }
        let node = GitTreeNode {
            mode,
            node_type: node_kind(mode),
            hash: slice_to_vec(&content[nul + 1..end]),
            filename,
        };
        let ghost before = nodes_view(nodes@);
        nodes.push(node);
        proof {
            assert(nodes_view(nodes@) =~= before.push(node@));
            assert(parse_entry(p, off as int) == Some((node@, end as int)));
            match parse_entries(p, end as int) {
                Some(rest) => {
                    assert(nodes_view(nodes@) + rest =~= before + (seq![node@] + rest));
                },
                None => {},
            }
        }
        off = end;
    }
    assert(nodes_view(nodes@) + Seq::<TreeEntryView>::empty() =~= nodes_view(nodes@));
    Ok(nodes)
}

/// Reads a tree from its canonical bytes, header included; anything else,
/// or a payload that does not split into whole records, is a `ParseError`.
pub fn parse_tree(content: &[u8]) -> (r: Result<GitObject, GitObjectError>)
    ensures
        match r {
            Ok(o) => parse_object(content@) == Some(o@) && o@ is Tree,
            Err(e) => !(parse_object(content@) matches Some(ObjectView::Tree(_)))
                && parse_error_at(e, error_offset(content@)),
        },
{
    proof {
        lemma_kind_names_differ();
    }
    let total = content.len();
    let (sp, nul) = read_header(content)?;
    assert(nul < total);
    if !names_kind(content, sp, GitNodeType::Tree) {
        return Err(parse_error("not a tree", 0));
    }
    let nodes = parse_tree_payload(content, nul + 1)?;
    Ok(GitObject::Tree(nodes))
}

/// Reads an object from its canonical bytes (after decompression).
pub fn parse(content: &[u8]) -> (r: Result<GitObject, GitObjectError>)
    ensures
        match r {
            Ok(o) => parse_object(content@) == Some(o@),
            Err(e) => parse_object(content@) is None && parse_error_at(e, error_offset(content@)),
        },
{
    proof {
        lemma_kind_names_differ();
    }
    let (sp, _nul) = read_header(content)?;
    if names_kind(content, sp, GitNodeType::Blob) {
        parse_blob(content)
    } else if names_kind(content, sp, GitNodeType::Tree) {
        parse_tree(content)
    } else {
        Err(parse_error("unknown object type", 0))
    }
}

/// Reads an object from the bytes kept in the store: decompresses, then
/// parses.
pub fn load_object(stored: &[u8]) -> (r: Result<GitObject, GitObjectError>)
    ensures
        match inflated(stored@) {
            None => r matches Err(e) && e is CorruptObjectError,
            Some(v) => match parse_object(v) {
                Some(o) => r matches Ok(obj) && obj@ == o,
                None => r matches Err(e) && parse_error_at(e, error_offset(v)),
            },
        },
{
    let content = decompress(stored)?;
    parse(content.as_slice())
}

} // verus!

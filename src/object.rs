use crate::codec::{compress, hash, inflated, sha1_of};
use crate::decimal::{decimal, push_decimal};
use crate::order::{is_sorted_arrangement, sort_by_name};
use crate::hex::{hash_to_path_str, hash_to_str, hex_of, object_path, push_char, HASH_LEN};
use vstd::prelude::*;
use vstd::slice::slice_to_vec;
use vstd::utf8::encode_utf8;

verus! {

/// The mode recorded for a regular file.
pub const BLOB_MODE: u32 = 100644;

/// The mode recorded for a subdirectory.
pub const TREE_MODE: u32 = 40000;

/// Separates the type name from the length, and a mode from a filename.
pub const SPACE: u8 = 32;

/// Ends an object header and a tree entry's filename.
pub const NUL: u8 = 0;

/// What a tree entry points at.
#[derive(Debug, Clone, Copy, PartialEq, Eq, Structural)]
pub enum GitNodeType {
    Blob,
    Tree,
}

/// The kind of node that a mode stands for: subdirectories carry the tree
/// mode, everything else is file content.
pub open spec fn kind_of_mode(mode: u32) -> GitNodeType {
    if mode == TREE_MODE {
        GitNodeType::Tree
    } else {
        GitNodeType::Blob
    }
}

/// One record of a tree: a named child and the hash it is stored under.
#[derive(Debug)]
pub struct GitTreeNode {
    pub mode: u32,
    pub node_type: GitNodeType,
    pub hash: Vec<u8>,
    pub filename: String,
}

/// The mathematical value of a tree record.
pub struct TreeEntryView {
    pub mode: u32,
    pub node_type: GitNodeType,
    pub hash: Seq<u8>,
    pub filename: Seq<char>,
}

impl View for GitTreeNode {
    type V = TreeEntryView;

    open spec fn view(&self) -> TreeEntryView {
        TreeEntryView {
            mode: self.mode,
            node_type: self.node_type,
            hash: self.hash@,
            filename: self.filename@,
        }
    }
}

/// A stored object: raw file content, or a directory listing.
#[derive(Debug)]
pub enum GitObject {
    Blob(Vec<u8>),
    Tree(Vec<GitTreeNode>),
}

/// The mathematical value of an object.
pub enum ObjectView {
    Blob(Seq<u8>),
    Tree(Seq<TreeEntryView>),
}

/// The values of a sequence of tree records.
pub open spec fn nodes_view(nodes: Seq<GitTreeNode>) -> Seq<TreeEntryView> {
    nodes.map_values(|n: GitTreeNode| n@)
}

impl View for GitObject {
    type V = ObjectView;

    open spec fn view(&self) -> ObjectView {
        match self {
            GitObject::Blob(b) => ObjectView::Blob(b@),
            GitObject::Tree(t) => ObjectView::Tree(nodes_view(t@)),
        }
    }
}

/// ASCII `blob`.
pub open spec fn blob_name() -> Seq<u8> {
    seq![98u8, 108, 111, 98]
}

/// ASCII `tree`.
pub open spec fn tree_name() -> Seq<u8> {
    seq![116u8, 114, 101, 101]
}

/// The name of a node kind, in ASCII.
pub open spec fn kind_name(k: GitNodeType) -> Seq<u8> {
    match k {
        GitNodeType::Blob => blob_name(),
        GitNodeType::Tree => tree_name(),
    }
}

/// A filename as it is stored: its UTF-8 bytes.
pub open spec fn name_bytes(e: TreeEntryView) -> Seq<u8> {
    encode_utf8(e.filename)
}

/// One tree record in the payload: `<mode> SP <filename> NUL <raw hash>`.
pub open spec fn entry_bytes(e: TreeEntryView) -> Seq<u8> {
    decimal(e.mode as nat) + seq![SPACE] + name_bytes(e) + seq![NUL] + e.hash
}

/// A tree payload: its records, encoded one after the other.
pub open spec fn tree_payload(es: Seq<TreeEntryView>) -> Seq<u8>
    decreases es.len(),
{
    if es.len() == 0 {
        Seq::empty()
    } else {
        entry_bytes(es[0]) + tree_payload(es.drop_first())
    }
}

/// The canonical framing of a payload: `<type-name> SP <byte-length> NUL <payload>`.
pub open spec fn framed(kind: Seq<u8>, payload: Seq<u8>) -> Seq<u8> {
    kind + seq![SPACE] + decimal(payload.len()) + seq![NUL] + payload
}

/// ASCII tab.
pub const TAB: u8 = 9;

/// ASCII line feed.
pub const NEWLINE: u8 = 10;

/// One line of a tree listing: `<mode> <type-name> <hash-hex> TAB <filename> LF`.
pub open spec fn listing_line(e: TreeEntryView) -> Seq<u8> {
    decimal(e.mode as nat) + seq![SPACE] + kind_name(e.node_type) + seq![SPACE] + encode_utf8(
        hex_of(e.hash),
    ) + seq![TAB] + name_bytes(e) + seq![NEWLINE]
}

/// A tree listing: one line per record, in the stored order.
pub open spec fn listing(es: Seq<TreeEntryView>) -> Seq<u8>
    decreases es.len(),
{
    if es.len() == 0 {
        Seq::empty()
    } else {
        listing_line(es[0]) + listing(es.drop_first())
    }
}

impl TreeEntryView {
    /// A record that encodes faithfully: a full-length hash, a filename whose
    /// bytes hold no NUL, and a node kind that agrees with the mode.
    pub open spec fn wf(self) -> bool {
        &&& self.hash.len() == HASH_LEN
        &&& !name_bytes(self).contains(NUL)
        &&& self.node_type == kind_of_mode(self.mode)
    }
}

impl ObjectView {
    /// An object that encodes faithfully: every tree record is well formed,
    /// and the payload length fits the header's 64-bit length field.
    pub open spec fn wf(self) -> bool {
        &&& self.content().len() <= u64::MAX
        &&& match self {
            ObjectView::Blob(_) => true,
            ObjectView::Tree(es) => forall|i: int| 0 <= i < es.len() ==> (#[trigger] es[i]).wf(),
        }
    }

    /// The node kind of this object.
    pub open spec fn kind(self) -> GitNodeType {
        match self {
            ObjectView::Blob(_) => GitNodeType::Blob,
            ObjectView::Tree(_) => GitNodeType::Tree,
        }
    }

    /// The payload: a blob's bytes verbatim, or a tree's encoded records.
    pub open spec fn content(self) -> Seq<u8> {
        match self {
            ObjectView::Blob(b) => b,
            ObjectView::Tree(es) => tree_payload(es),
        }
    }

    /// The canonical encoding, header included.
    pub open spec fn encoding(self) -> Seq<u8> {
        framed(kind_name(self.kind()), self.content())
    }

    /// What printing the object shows: a blob's raw content, or a tree's
    /// listing.
    pub open spec fn pretty(self) -> Seq<u8> {
        match self {
            ObjectView::Blob(b) => b,
            ObjectView::Tree(es) => listing(es),
        }
    }

    /// The hash that addresses the object: the digest of its encoding.
    pub open spec fn hash(self) -> Seq<u8> {
        sha1_of(self.encoding())
    }
}

/// A store as a map from storage location to stored bytes, after writing
/// `bytes` at `path` the write-once way: where something is stored at
/// `path` already, nothing changes.
pub open spec fn write_once(
    store: Map<Seq<char>, Seq<u8>>,
    path: Seq<char>,
    bytes: Seq<u8>,
) -> Map<Seq<char>, Seq<u8>> {
    if store.contains_key(path) {
        store
    } else {
        store.insert(path, bytes)
    }
}

/// Appends all of `s` to `out`.
pub fn push_all(out: &mut Vec<u8>, s: &[u8])
    ensures
        final(out)@ == old(out)@ + s@,
{
    let ghost start = out@;
    let mut i: usize = 0;
    while i < s.len()
        invariant
            i <= s@.len(),
            out@ == start + s@.subrange(0, i as int),
        decreases s@.len() - i,
    {
        out.push(s[i]);
        i = i + 1;
        assert(out@ =~= start + s@.subrange(0, i as int));
    }
    assert(s@.subrange(0, s@.len() as int) =~= s@);
}

/// Appends the ASCII name of a node kind.
pub(crate) fn push_kind_name(out: &mut Vec<u8>, k: GitNodeType)
    ensures
        final(out)@ == old(out)@ + kind_name(k),
{
    match k {
        GitNodeType::Blob => {
            out.push(98);
            out.push(108);
            out.push(111);
            out.push(98);
        },
        GitNodeType::Tree => {
            out.push(116);
            out.push(114);
            out.push(101);
            out.push(101);
        },
    }
    assert(final(out)@ =~= old(out)@ + kind_name(k));
}

/// Appending one more record to a tree payload appends its encoding.
pub proof fn lemma_tree_payload_push(es: Seq<TreeEntryView>, e: TreeEntryView)
    ensures
        tree_payload(es.push(e)) == tree_payload(es) + entry_bytes(e),
    decreases es.len(),
{
    if es.len() == 0 {
        assert(es.push(e).drop_first() =~= Seq::<TreeEntryView>::empty());
        assert(tree_payload(es.push(e).drop_first()) == Seq::<u8>::empty());
        assert(es.push(e)[0] == e);
        assert(tree_payload(es.push(e)) =~= entry_bytes(e) + Seq::<u8>::empty());
    } else {
        lemma_tree_payload_push(es.drop_first(), e);
        assert(es.push(e).drop_first() =~= es.drop_first().push(e));
        assert(tree_payload(es.push(e)) =~= entry_bytes(es[0]) + (tree_payload(es.drop_first())
            + entry_bytes(e)));
    }
}

/// Appending one more record to a listing appends its line.
pub proof fn lemma_listing_push(es: Seq<TreeEntryView>, e: TreeEntryView)
    ensures
        listing(es.push(e)) == listing(es) + listing_line(e),
    decreases es.len(),
{
    if es.len() == 0 {
        assert(es.push(e).drop_first() =~= Seq::<TreeEntryView>::empty());
        assert(listing(es.push(e).drop_first()) == Seq::<u8>::empty());
        assert(es.push(e)[0] == e);
        assert(listing(es.push(e)) =~= listing_line(e) + Seq::<u8>::empty());
    } else {
        lemma_listing_push(es.drop_first(), e);
        assert(es.push(e).drop_first() =~= es.drop_first().push(e));
        assert(listing(es.push(e)) =~= listing_line(es[0]) + (listing(es.drop_first())
            + listing_line(e)));
    }
}

/// Frames `payload` behind the header of an object of kind `kind`.
fn frame(kind: GitNodeType, payload: &[u8]) -> (r: Vec<u8>)
    ensures
        r@ == framed(kind_name(kind), payload@),
{
    let mut name: Vec<u8> = Vec::new();
    push_kind_name(&mut name, kind);
    frame_named(name.as_slice(), payload)
}

/// Frames `payload` behind a header that names its type `kind`.
pub fn frame_named(kind: &[u8], payload: &[u8]) -> (r: Vec<u8>)
    ensures
        r@ == framed(kind@, payload@),
{
    let mut out: Vec<u8> = Vec::new();
    push_all(&mut out, kind);
    out.push(SPACE);
    push_decimal(&mut out, payload.len() as u64);
    out.push(NUL);
    push_all(&mut out, payload);
    assert(out@ =~= framed(kind@, payload@));
    out
}

impl GitTreeNode {
    /// A record for `filename`, stored under `hash`.
    pub fn new(filename: String, hash: &[u8], mode: u32, node_type: GitNodeType) -> (r: Self)
        ensures
            r@ == (TreeEntryView { mode, node_type, hash: hash@, filename: filename@ }),
    {
        GitTreeNode { filename, hash: slice_to_vec(hash), mode, node_type }
    }

    /// `blob` or `tree`, after the kind of node this record points at.
    pub fn type_str(&self) -> (r: String)
        ensures
            r@ == match self.node_type {
                GitNodeType::Blob => "blob"@,
                GitNodeType::Tree => "tree"@,
            },
    {
        match self.node_type {
            GitNodeType::Blob => String::from_str("blob"),
            GitNodeType::Tree => String::from_str("tree"),
        }
    }

    /// Appends this record's encoding to `out`.
    fn push_encoded(&self, out: &mut Vec<u8>)
        ensures
            final(out)@ == old(out)@ + entry_bytes(self@),
    {
        push_decimal(out, self.mode as u64);
        out.push(SPACE);
        push_all(out, self.filename.as_str().as_bytes());
        out.push(NUL);
        push_all(out, self.hash.as_slice());
        assert(final(out)@ =~= old(out)@ + entry_bytes(self@));
    }

    /// Appends this record's listing line to `out`.
    fn push_listing_line(&self, out: &mut Vec<u8>)
        ensures
            final(out)@ == old(out)@ + listing_line(self@),
    {
        push_decimal(out, self.mode as u64);
        out.push(SPACE);
        push_kind_name(out, self.node_type);
        out.push(SPACE);
        let hex = hash_to_str(self.hash.as_slice());
        push_all(out, hex.as_str().as_bytes());
        out.push(TAB);
        push_all(out, self.filename.as_str().as_bytes());
        out.push(NEWLINE);
        assert(final(out)@ =~= old(out)@ + listing_line(self@));
    }
}

impl GitObject {
    /// A tree of `nodes`, kept in ascending byte order of their filenames
    /// whatever order they come in.
    pub fn new_tree(nodes: Vec<GitTreeNode>) -> (r: Self)
        ensures
            r@ matches ObjectView::Tree(es) && is_sorted_arrangement(es, nodes_view(nodes@)),
    {
        GitObject::Tree(sort_by_name(nodes))
    }

    /// The payload of the object, without its header.
    pub fn get_content(&self) -> (r: Vec<u8>)
        ensures
            r@ == self@.content(),
    {
        match self {
            GitObject::Blob(b) => slice_to_vec(b.as_slice()),
            GitObject::Tree(nodes) => {
                let ghost es = nodes_view(nodes@);
                let mut out: Vec<u8> = Vec::new();
                let mut i: usize = 0;
                assert(es.take(0) =~= Seq::<TreeEntryView>::empty());
                while i < nodes.len()
                    invariant
                        i <= nodes@.len(),
                        es == nodes_view(nodes@),
                        out@ == tree_payload(es.take(i as int)),
                    decreases nodes@.len() - i,
                {
                    nodes[i].push_encoded(&mut out);
                    proof {
                        lemma_tree_payload_push(es.take(i as int), es[i as int]);
                        assert(es.take(i + 1) =~= es.take(i as int).push(es[i as int]));
                    }
                    i = i + 1;
                }
                assert(es.take(nodes@.len() as int) =~= es);
                out
            },
        }
    }

    /// What printing the object shows: a blob's raw content, or for a tree
    /// one line per record, `<mode> <type-name> <hash-hex> TAB <filename>`.
    pub fn pretty_print(&self) -> (r: Vec<u8>)
        ensures
            r@ == self@.pretty(),
    {
        match self {
            GitObject::Blob(b) => slice_to_vec(b.as_slice()),
            GitObject::Tree(nodes) => {
                let ghost es = nodes_view(nodes@);
                let mut out: Vec<u8> = Vec::new();
                let mut i: usize = 0;
                assert(es.take(0) =~= Seq::<TreeEntryView>::empty());
                while i < nodes.len()
                    invariant
                        i <= nodes@.len(),
                        es == nodes_view(nodes@),
                        out@ == listing(es.take(i as int)),
                    decreases nodes@.len() - i,
                {
                    nodes[i].push_listing_line(&mut out);
                    proof {
                        lemma_listing_push(es.take(i as int), es[i as int]);
                        assert(es.take(i + 1) =~= es.take(i as int).push(es[i as int]));
                    }
                    i = i + 1;
                }
                assert(es.take(nodes@.len() as int) =~= es);
                out
            },
        }
    }

    /// The byte size of the payload.
    pub fn size(&self) -> (r: usize)
        ensures
            r == self@.content().len(),
    {
        self.get_content().len()
    }

    /// `blob` or `tree`.
    pub fn type_str(&self) -> (r: String)
        ensures
            r@ == match self@.kind() {
                GitNodeType::Blob => "blob"@,
                GitNodeType::Tree => "tree"@,
            },
    {
        match self {
            GitObject::Blob(_) => String::from_str("blob"),
            GitObject::Tree(_) => String::from_str("tree"),
        }
    }

    /// The kind of node that a tree record pointing at this object has.
    pub fn to_node_type(&self) -> (r: GitNodeType)
        ensures
            r == self@.kind(),
    {
        match self {
            GitObject::Blob(_) => GitNodeType::Blob,
            GitObject::Tree(_) => GitNodeType::Tree,
        }
    }

    /// The canonical encoding: header, then payload.
    pub fn to_node_content(&self) -> (r: Vec<u8>)
        ensures
            r@ == self@.encoding(),
    {
        let content = self.get_content();
        frame(self.to_node_type(), content.as_slice())
    }

    /// The canonical encoding as text, one character per byte.
    pub fn to_string(&self) -> (r: String)
        ensures
            r@ == Seq::new(self@.encoding().len(), |i: int| self@.encoding()[i] as char),
    {
        let bytes = self.to_node_content();
        let mut s = String::new();
        let mut i: usize = 0;
        while i < bytes.len()
            invariant
                i <= bytes@.len(),
                s@ =~= Seq::new(i as nat, |k: int| bytes@[k] as char),
            decreases bytes@.len() - i,
        {
            push_char(&mut s, bytes[i] as char);
            i = i + 1;
        }
        s
    }

    /// The hash of the object: SHA-1 of its canonical encoding.
    pub fn to_hash(&self) -> (r: Vec<u8>)
        ensures
            r@ == self@.hash(),
            r@.len() == HASH_LEN,
    {
        hash(self.to_node_content().as_slice())
    }

    /// The hash of the object in hexadecimal.
    pub fn to_hash_str(&self) -> (r: String)
        ensures
            r@ == hex_of(self@.hash()),
    {
        hash_to_str(self.to_hash().as_slice())
    }

    /// Where the object is stored, derived from its hash.
    pub fn storage_path(&self) -> (r: String)
        ensures
            r@ == object_path(hex_of(self@.hash())),
    {
        let h = self.to_hash();
        let hex = hash_to_str(h.as_slice());
        hash_to_path_str(hex.as_str())
    }

    /// The bytes kept in the store: the compressed canonical encoding.
    pub fn stored_bytes(&self) -> (r: Vec<u8>)
        ensures
            inflated(r@) == Some(self@.encoding()),
    {
        compress(self.to_node_content().as_slice())
    }

    /// The file a write-once store has to create for this object, given
    /// whether its location holds an object already: none if it does, else
    /// the stored bytes at the object's location.
    pub fn pending_write(&self, already_stored: bool) -> (r: Option<(String, Vec<u8>)>)
        ensures
            already_stored <==> r is None,
            r matches Some((path, bytes)) ==> path@ == object_path(hex_of(self@.hash()))
                && inflated(bytes@) == Some(self@.encoding()),
    {
        if already_stored {
            None
        } else {
            Some((self.storage_path(), self.stored_bytes()))
        }
    }
}

} // verus!

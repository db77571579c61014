use crate::codec::inflated;
use crate::decimal::{decimal, lemma_decimal_reads_back, read_number};
use crate::hex::{hash_of_hex, hex_digit, hex_of, hex_value, is_hash_hex, object_path, HASH_LEN};
use crate::object::{
    blob_name, entry_bytes, kind_name, name_bytes, tree_name, tree_payload, ObjectView,
    TreeEntryView, NUL, SPACE,
};
use crate::order::{is_sorted_arrangement, lemma_sorted_unique, names_determine};
use crate::snapshot::{built_record, well_named, DirModel};
use crate::object::{write_once, GitNodeType, TREE_MODE};
use crate::parse::{find_byte, parse_entries, parse_entry, parse_header, parse_object};
use vstd::prelude::*;
use vstd::utf8::{encode_utf8_decode_utf8, encode_utf8_valid_utf8};

verus! {

/// `find_byte` stops at the first match: if `s[i] == x` and no byte in
/// `s[from..i]` is `x`, the search from `from` finds `i`.
pub proof fn lemma_find_byte_at(s: Seq<u8>, x: u8, from: int, i: int)
    requires
        0 <= from <= i < s.len(),
        s[i] == x,
        forall|k: int| from <= k < i ==> s[k] != x,
    ensures
        find_byte(s, x, from) == Some(i),
    decreases i - from,
{
    if from < i {
        lemma_find_byte_at(s, x, from + 1, i);
    }
}

/// A well-formed record, placed at `pre.len()` in front of `rest`, parses
/// back to itself and ends where its encoding ends.
pub proof fn lemma_parse_entry(pre: Seq<u8>, e: TreeEntryView, rest: Seq<u8>)
    requires
        e.wf(),
    ensures
        parse_entry(pre + entry_bytes(e) + rest, pre.len() as int) == Some(
            (e, pre.len() + entry_bytes(e).len() as int),
        ),
{
    let p = pre + entry_bytes(e) + rest;
    let dm = decimal(e.mode as nat);
    let nb = name_bytes(e);
    let off = pre.len() as int;
    let sp = off + dm.len();
    let nul = sp + 1 + nb.len();
    let end = nul + 1 + HASH_LEN;
    lemma_decimal_reads_back(e.mode as nat);
    assert(entry_bytes(e) == dm + seq![SPACE] + nb + seq![NUL] + e.hash);
    assert(p.subrange(off, sp) =~= dm);
    assert(p.subrange(sp + 1, nul) =~= nb);
    assert(p.subrange(nul + 1, end) =~= e.hash);
    assert(p[sp] == SPACE);
    assert(p[nul] == NUL);
    assert forall|k: int| off <= k < sp implies p[k] != SPACE by {
        assert(p[k] == dm[k - off]);
    }
    lemma_find_byte_at(p, SPACE, off, sp);
    assert forall|k: int| sp + 1 <= k < nul implies p[k] != NUL by {
        assert(p[k] == nb[k - sp - 1]);
    }
    lemma_find_byte_at(p, NUL, sp + 1, nul);
    assert(read_number(dm, u32::MAX as nat) == Some(e.mode as nat));
    encode_utf8_valid_utf8(e.filename);
    encode_utf8_decode_utf8(e.filename);
    let parsed = parse_entry(p, off);
    assert(parsed matches Some((r, next)) && next == end && r.mode == e.mode && r.hash =~= e.hash
        && r.filename =~= e.filename && r.node_type == e.node_type);
}

/// Well-formed records, encoded one after the other behind `pre`, parse back
/// from `pre.len()` to the same records.
pub proof fn lemma_parse_entries(pre: Seq<u8>, es: Seq<TreeEntryView>)
    requires
        forall|i: int| 0 <= i < es.len() ==> (#[trigger] es[i]).wf(),
    ensures
        parse_entries(pre + tree_payload(es), pre.len() as int) == Some(es),
    decreases es.len(),
{
    let p = pre + tree_payload(es);
    if es.len() == 0 {
        assert(p.len() == pre.len());
    } else {
        let e = es[0];
        let rest = tree_payload(es.drop_first());
        assert(p =~= pre + entry_bytes(e) + rest);
        lemma_parse_entry(pre, e, rest);
        let pre2 = pre + entry_bytes(e);
        assert(p =~= pre2 + rest);
        assert(forall|i: int|
            0 <= i < es.drop_first().len() ==> es.drop_first()[i] == es[i + 1]);
        lemma_parse_entries(pre2, es.drop_first());
        assert(entry_bytes(e).len() > 0);
        assert(seq![e] + es.drop_first() =~= es);
    }
}

/// Round trip: the canonical encoding of a well-formed blob or tree parses
/// back to that very object.
pub proof fn lemma_parse_encoding(o: ObjectView)
    requires
        o.wf(),
    ensures
        parse_object(o.encoding()) == Some(o),
{
    let kind = kind_name(o.kind());
    let payload = o.content();
    let dl = decimal(payload.len());
    let c = o.encoding();
    let sp = kind.len() as int;
    let nul = sp + 1 + dl.len();
    lemma_decimal_reads_back(payload.len());
    assert(c == kind + seq![SPACE] + dl + seq![NUL] + payload);
    assert(c.subrange(0, sp) =~= kind);
    assert(c.subrange(sp + 1, nul) =~= dl);
    assert(c.subrange(nul + 1, c.len() as int) =~= payload);
    assert(c[sp] == SPACE);
    assert(c[nul] == NUL);
    assert forall|k: int| 0 <= k < sp implies c[k] != SPACE by {
        assert(c[k] == kind[k]);
    }
    lemma_find_byte_at(c, SPACE, 0, sp);
    assert forall|k: int| sp + 1 <= k < nul implies c[k] != NUL by {
        assert(c[k] == dl[k - sp - 1]);
    }
    lemma_find_byte_at(c, NUL, sp + 1, nul);
    assert(read_number(dl, u64::MAX as nat) == Some(payload.len()));
    assert(parse_header(c) == Some((sp, nul)));
    match o {
        ObjectView::Blob(b) => {
            assert(kind == blob_name());
        },
        ObjectView::Tree(es) => {
            assert(kind == tree_name());
            assert(kind != blob_name()) by {
                assert(kind[0] != blob_name()[0]);
            }
            let header = kind + seq![SPACE] + dl + seq![NUL];
            lemma_parse_entries(header, es);
            assert(header + tree_payload(es) =~= c);
            assert(header.len() == nul + 1);
        },
    }
}

/// Round trip through the store: whatever bytes decompress to the canonical
/// encoding of a well-formed blob or tree (as the bytes written for it do)
/// are read back as that object.
pub proof fn lemma_store_round_trip(o: ObjectView, stored: Seq<u8>)
    requires
        o.wf(),
        inflated(stored) == Some(o.encoding()),
    ensures
        parse_object(inflated(stored)->0) == Some(o),
{
    lemma_parse_encoding(o);
}

/// Each hex digit reads back as its value.
proof fn lemma_hex_digit_reads_back(n: int)
    requires
        0 <= n < 16,
    ensures
        hex_value(hex_digit(n)) == Some(n as u8),
{
}

/// Hexadecimal round trip: the hex text of a 20-byte hash is a well-formed
/// hash string, and reading it back gives the same bytes.
pub proof fn lemma_hex_round_trip(b: Seq<u8>)
    requires
        b.len() == HASH_LEN,
    ensures
        is_hash_hex(hex_of(b)),
        hash_of_hex(hex_of(b)) == b,
{
    let h = hex_of(b);
    assert forall|i: int| 0 <= i < h.len() implies (#[trigger] hex_value(h[i])) is Some by {
        if i % 2 == 0 {
            lemma_hex_digit_reads_back(b[i / 2] as int / 16);
        } else {
            lemma_hex_digit_reads_back(b[i / 2] as int % 16);
        }
    }
    assert forall|i: int| 0 <= i < b.len() implies #[trigger] hash_of_hex(h)[i] == b[i] by {
        assert((2 * i) / 2 == i && (2 * i) % 2 == 0);
        assert((2 * i + 1) / 2 == i && (2 * i + 1) % 2 == 1);
        lemma_hex_digit_reads_back(b[i] as int / 16);
        lemma_hex_digit_reads_back(b[i] as int % 16);
    }
    assert(hash_of_hex(h) =~= b);
}

/// Hash determinism: an object's hash, its hexadecimal form and its storage
/// location depend on its canonical encoding alone, so objects with identical
/// encodings get identical ones, in every call and every process.
pub proof fn lemma_hash_determined(a: ObjectView, b: ObjectView)
    requires
        a.encoding() == b.encoding(),
    ensures
        a.hash() == b.hash(),
        hex_of(a.hash()) == hex_of(b.hash()),
        object_path(hex_of(a.hash())) == object_path(hex_of(b.hash())),
{
}

/// Deduplication: blobs with the same content are addressed by the same
/// storage location, so a second write of that content finds the first one
/// already stored.
pub proof fn lemma_same_blob_same_location(c1: Seq<u8>, c2: Seq<u8>)
    requires
        c1 == c2,
    ensures
        object_path(hex_of(ObjectView::Blob(c1).hash())) == object_path(
            hex_of(ObjectView::Blob(c2).hash()),
        ),
{
}

/// Deduplication in a write-once store: writing a blob, then a blob of the
/// same content again (whatever compressed bytes each write carries), leaves
/// exactly one stored entry for that content, the one the first write made.
pub proof fn lemma_write_twice_stores_once(
    store: Map<Seq<char>, Seq<u8>>,
    content: Seq<u8>,
    first: Seq<u8>,
    second: Seq<u8>,
)
    ensures
        ({
            let path = object_path(hex_of(ObjectView::Blob(content).hash()));
            let once = write_once(store, path, first);
            &&& write_once(once, path, second) == once
            &&& once.dom() == store.dom().insert(path)
            &&& store.contains_key(path) ==> once == store
        }),
{
    let path = object_path(hex_of(ObjectView::Blob(content).hash()));
    assert(write_once(store, path, first).dom() =~= store.dom().insert(path));
}

/// Canonical order: trees built from the same records handed over in any two
/// orders, where no two different records share a filename, are one tree,
/// with one encoding and one hash.
pub proof fn lemma_tree_order_canonical(
    a: Seq<TreeEntryView>,
    b: Seq<TreeEntryView>,
    ta: ObjectView,
    tb: ObjectView,
)
    requires
        a.to_multiset() == b.to_multiset(),
        forall|i: int, j: int|
            0 <= i < a.len() && 0 <= j < a.len() && (#[trigger] a[i]).filename == (#[trigger] a[j]).filename
                ==> a[i] == a[j],
        ta matches ObjectView::Tree(sa) && is_sorted_arrangement(sa, a),
        tb matches ObjectView::Tree(sb) && is_sorted_arrangement(sb, b),
    ensures
        ta == tb,
        ta.encoding() == tb.encoding(),
        ta.hash() == tb.hash(),
{
    let sa = ta->Tree_0;
    let sb = tb->Tree_0;
    a.to_multiset_ensures();
    assert(names_determine(sa.to_multiset())) by {
        assert forall|x: TreeEntryView, y: TreeEntryView|
            #![trigger sa.to_multiset().count(x), sa.to_multiset().count(y)]
            sa.to_multiset().count(x) > 0 && sa.to_multiset().count(y) > 0 && x.filename
                == y.filename implies x == y by {
            assert(a.to_multiset().count(x) > 0);
            assert(a.to_multiset().count(y) > 0);
            let i = choose|i: int| 0 <= i < a.len() && a[i] == x;
            let j = choose|j: int| 0 <= j < a.len() && a[j] == y;
        }
    }
    lemma_sorted_unique(sa, sb);
}

/// A record built for an entry carries the entry's name.
proof fn lemma_built_record_name(n: DirModel, r: TreeEntryView)
    requires
        built_record(n, r),
    ensures
        r.filename == n.name(),
{
    match n {
        DirModel::File { .. } => {},
        DirModel::Dir { name, entries } => {
            let (pe, l, es) = choose|
                pe: Seq<TreeEntryView>,
                l: Seq<TreeEntryView>,
                es: Seq<TreeEntryView>,
            |
                #![trigger pe.to_multiset(), l.to_multiset(), es.to_multiset()]
                {
                &&& pe.len() == entries.len()
                &&& forall|j: int|
                    0 <= j < entries.len() ==> built_record(#[trigger] entries[j], pe[j])
                &&& l.to_multiset() == pe.to_multiset()
                &&& is_sorted_arrangement(es, l)
                &&& r == (TreeEntryView {
                    mode: TREE_MODE,
                    node_type: GitNodeType::Tree,
                    hash: ObjectView::Tree(es).hash(),
                    filename: name,
                })
            };
        },
    }
}

/// Repeatable snapshots: two runs of the tree builder over the same unchanged
/// directory, whatever order its listings hand the entries over in, build
/// the same record for it, so the same tree hash; in particular `write-tree`
/// run twice prints the same root hash.
pub proof fn lemma_snapshot_repeatable(n: DirModel, r1: TreeEntryView, r2: TreeEntryView)
    requires
        well_named(n),
        built_record(n, r1),
        built_record(n, r2),
    ensures
        r1 == r2,
    decreases n,
{
    match n {
        DirModel::File { .. } => {},
        DirModel::Dir { name, entries } => {
            let (pe1, l1, es1) = choose|
                pe: Seq<TreeEntryView>,
                l: Seq<TreeEntryView>,
                es: Seq<TreeEntryView>,
            |
                #![trigger pe.to_multiset(), l.to_multiset(), es.to_multiset()]
                {
                &&& pe.len() == entries.len()
                &&& forall|j: int|
                    0 <= j < entries.len() ==> built_record(#[trigger] entries[j], pe[j])
                &&& l.to_multiset() == pe.to_multiset()
                &&& is_sorted_arrangement(es, l)
                &&& r1 == (TreeEntryView {
                    mode: TREE_MODE,
                    node_type: GitNodeType::Tree,
                    hash: ObjectView::Tree(es).hash(),
                    filename: name,
                })
            };
            let (pe2, l2, es2) = choose|
                pe: Seq<TreeEntryView>,
                l: Seq<TreeEntryView>,
                es: Seq<TreeEntryView>,
            |
                #![trigger pe.to_multiset(), l.to_multiset(), es.to_multiset()]
                {
                &&& pe.len() == entries.len()
                &&& forall|j: int|
                    0 <= j < entries.len() ==> built_record(#[trigger] entries[j], pe[j])
                &&& l.to_multiset() == pe.to_multiset()
                &&& is_sorted_arrangement(es, l)
                &&& r2 == (TreeEntryView {
                    mode: TREE_MODE,
                    node_type: GitNodeType::Tree,
                    hash: ObjectView::Tree(es).hash(),
                    filename: name,
                })
            };
            assert forall|j: int| 0 <= j < entries.len() implies pe1[j] == pe2[j] by {
                lemma_snapshot_repeatable(entries[j], pe1[j], pe2[j]);
            }
            assert(pe1 =~= pe2);
            pe1.to_multiset_ensures();
            assert(names_determine(es1.to_multiset())) by {
                assert forall|x: TreeEntryView, y: TreeEntryView|
                    #![trigger es1.to_multiset().count(x), es1.to_multiset().count(y)]
                    es1.to_multiset().count(x) > 0 && es1.to_multiset().count(y) > 0 && x.filename
                        == y.filename implies x == y by {
                    assert(pe1.to_multiset().count(x) > 0);
                    assert(pe1.to_multiset().count(y) > 0);
                    let j = choose|j: int| 0 <= j < pe1.len() && pe1[j] == x;
                    let k = choose|k: int| 0 <= k < pe1.len() && pe1[k] == y;
                    lemma_built_record_name(entries[j], pe1[j]);
                    lemma_built_record_name(entries[k], pe1[k]);
                    assert(entries[j] == entries[k]);
                    lemma_snapshot_repeatable(entries[j], pe1[j], pe1[k]);
                }
            }
            lemma_sorted_unique(es1, es2);
        },
    }
}

} // verus!

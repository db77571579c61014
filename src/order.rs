use crate::object::{name_bytes, nodes_view, GitTreeNode, TreeEntryView};
use vstd::multiset::Multiset;
use vstd::prelude::*;
use vstd::seq_lib::group_to_multiset_ensures;
use vstd::utf8::encode_utf8_decode_utf8;

verus! {

/// Byte-wise lexicographic order: `a` is at most `b`.
pub open spec fn lex_le(a: Seq<u8>, b: Seq<u8>) -> bool
    decreases a.len(),
{
    if a.len() == 0 {
        true
    } else if b.len() == 0 {
        false
    } else if a[0] != b[0] {
        a[0] < b[0]
    } else {
        lex_le(a.drop_first(), b.drop_first())
    }
}

/// Records in ascending order of their filenames' bytes.
pub open spec fn sorted_by_name(es: Seq<TreeEntryView>) -> bool {
    forall|i: int, j: int|
        0 <= i < j < es.len() ==> lex_le(name_bytes(#[trigger] es[i]), name_bytes(#[trigger] es[j]))
}

/// `sorted` holds the records of `es` in ascending filename order.
pub open spec fn is_sorted_arrangement(sorted: Seq<TreeEntryView>, es: Seq<TreeEntryView>) -> bool {
    sorted_by_name(sorted) && sorted.to_multiset() == es.to_multiset()
}

/// Within `m`, a filename determines the record: no two different records
/// share a name.
pub open spec fn names_determine(m: Multiset<TreeEntryView>) -> bool {
    forall|x: TreeEntryView, y: TreeEntryView|
        #![trigger m.count(x), m.count(y)]
        m.count(x) > 0 && m.count(y) > 0 && x.filename == y.filename ==> x == y
}

/// Any two byte strings are ordered one way or the other.
pub proof fn lemma_lex_total(a: Seq<u8>, b: Seq<u8>)
    ensures
        lex_le(a, b) || lex_le(b, a),
    decreases a.len(),
{
    if a.len() > 0 && b.len() > 0 && a[0] == b[0] {
        lemma_lex_total(a.drop_first(), b.drop_first());
    }
}

/// Byte strings ordered both ways are equal.
pub proof fn lemma_lex_antisymmetric(a: Seq<u8>, b: Seq<u8>)
    requires
        lex_le(a, b),
        lex_le(b, a),
    ensures
        a == b,
    decreases a.len(),
{
    if a.len() == 0 {
        assert(b.len() == 0);
        assert(a =~= b);
    } else {
        lemma_lex_antisymmetric(a.drop_first(), b.drop_first());
        assert(a =~= seq![a[0]] + a.drop_first());
        assert(b =~= seq![b[0]] + b.drop_first());
    }
}

/// The byte-wise order is transitive.
pub proof fn lemma_lex_transitive(a: Seq<u8>, b: Seq<u8>, c: Seq<u8>)
    requires
        lex_le(a, b),
        lex_le(b, c),
    ensures
        lex_le(a, c),
    decreases a.len(),
{
    if a.len() > 0 && b.len() > 0 && c.len() > 0 && a[0] == b[0] && b[0] == c[0] {
        lemma_lex_transitive(a.drop_first(), b.drop_first(), c.drop_first());
    }
}

/// Whether `a` is at most `b` in byte-wise order.
pub fn bytes_le(a: &[u8], b: &[u8]) -> (r: bool)
    ensures
        r == lex_le(a@, b@),
{
    let mut i: usize = 0;
    assert(a@.subrange(0, a@.len() as int) =~= a@);
    assert(b@.subrange(0, b@.len() as int) =~= b@);
    while i < a.len() && i < b.len()
        invariant
            i <= a@.len(),
            i <= b@.len(),
            lex_le(a@, b@) == lex_le(
                a@.subrange(i as int, a@.len() as int),
                b@.subrange(i as int, b@.len() as int),
            ),
        decreases a@.len() - i,
    {
        let ghost ra = a@.subrange(i as int, a@.len() as int);
        let ghost rb = b@.subrange(i as int, b@.len() as int);
        if a[i] != b[i] {
            assert(ra[0] == a@[i as int] && rb[0] == b@[i as int]);
            return a[i] < b[i];
        }
        assert(ra.drop_first() =~= a@.subrange(i + 1, a@.len() as int));
        assert(rb.drop_first() =~= b@.subrange(i + 1, b@.len() as int));
        i = i + 1;
    }
    i == a.len()
}

/// Inserting an element anywhere adds it to the multiset.
proof fn lemma_insert_to_multiset<A>(s: Seq<A>, j: int, x: A)
    requires
        0 <= j <= s.len(),
    ensures
        s.insert(j, x).to_multiset() =~= s.to_multiset().insert(x),
{
    broadcast use group_to_multiset_ensures;

    let t = s.insert(j, x);
    assert(t.remove(j) =~= s);
    assert(t[j] == x);
    assert(t.contains(x));
}

/// The records of `nodes`, rearranged in ascending byte order of their
/// filenames.
pub fn sort_by_name(nodes: Vec<GitTreeNode>) -> (r: Vec<GitTreeNode>)
    ensures
        is_sorted_arrangement(nodes_view(r@), nodes_view(nodes@)),
{
    broadcast use group_to_multiset_ensures;

    let ghost all = nodes_view(nodes@);
    let mut input = nodes;
    let mut out: Vec<GitTreeNode> = Vec::new();
    while input.len() > 0
        invariant
            sorted_by_name(nodes_view(out@)),
            nodes_view(out@).to_multiset().add(nodes_view(input@).to_multiset()) == all.to_multiset(),
        decreases input@.len(),
    {
        let ghost before_in = nodes_view(input@);
        let x = input.pop().unwrap();
        assert(before_in =~= nodes_view(input@).push(x@));
        let key = x.filename.as_str().as_bytes();
        let ghost ov = nodes_view(out@);
        let mut j: usize = 0;
        let mut stop = false;
        while !stop && j < out.len()
            invariant
                j <= out@.len(),
                ov == nodes_view(out@),
                key@ == name_bytes(x@),
                forall|k: int| 0 <= k < j ==> lex_le(name_bytes(#[trigger] ov[k]), name_bytes(x@)),
                stop ==> j < out@.len() && !lex_le(name_bytes(ov[j as int]), name_bytes(x@)),
            decreases out@.len() - j + if stop { 0int } else { 1int },
        {
            if bytes_le(out[j].filename.as_str().as_bytes(), key) {
                j = j + 1;
            } else {
                stop = true;
            }
        }
        proof {
            if j < ov.len() {
                lemma_lex_total(name_bytes(ov[j as int]), name_bytes(x@));
            }
            assert forall|k: int| j <= k < ov.len() implies lex_le(
                name_bytes(x@),
                name_bytes(#[trigger] ov[k]),
            ) by {
                if k > j {
                    lemma_lex_transitive(
                        name_bytes(x@),
                        name_bytes(ov[j as int]),
                        name_bytes(ov[k]),
                    );
                }
            }
            lemma_insert_to_multiset(ov, j as int, x@);
        }
        let ghost xv = x@;
        let ghost rest_in = nodes_view(input@);
        assert(before_in == rest_in.push(xv));
        proof {
            rest_in.to_multiset_ensures();
        }
        assert(rest_in.push(xv).to_multiset() =~= rest_in.to_multiset().insert(xv));
        out.insert(j, x);
        proof {
            let nv = nodes_view(out@);
            assert(nv =~= ov.insert(j as int, xv));
            assert forall|a: int, b: int| 0 <= a < b < nv.len() implies lex_le(
                name_bytes(#[trigger] nv[a]),
                name_bytes(#[trigger] nv[b]),
            ) by {
                if b < j {
                } else if b == j {
                } else if a < j {
                    lemma_lex_transitive(name_bytes(ov[a]), name_bytes(xv), name_bytes(ov[b - 1]));
                } else if a == j {
                } else {
                }
            }
            assert(rest_in == nodes_view(input@));
            assert(nv.to_multiset().add(rest_in.to_multiset()) =~= ov.to_multiset().add(
                before_in.to_multiset(),
            ));
        }
    }
    assert(nodes_view(input@).to_multiset() =~= Multiset::empty());
    assert(nodes_view(out@).to_multiset().add(Multiset::empty()) =~= nodes_view(out@).to_multiset());
    out
}

/// Dropping the first record keeps the order.
proof fn lemma_sorted_drop_first(s: Seq<TreeEntryView>)
    requires
        sorted_by_name(s),
        s.len() > 0,
    ensures
        sorted_by_name(s.drop_first()),
{
    let t = s.drop_first();
    assert forall|i: int, j: int| 0 <= i < j < t.len() implies lex_le(
        name_bytes(#[trigger] t[i]),
        name_bytes(#[trigger] t[j]),
    ) by {
        assert(t[i] == s[i + 1] && t[j] == s[j + 1]);
    }
}

/// The first record of an ascending arrangement has the least filename.
proof fn lemma_first_is_least(s: Seq<TreeEntryView>, y: TreeEntryView)
    requires
        sorted_by_name(s),
        s.contains(y),
    ensures
        lex_le(name_bytes(s[0]), name_bytes(y)),
{
    let k = choose|k: int| 0 <= k < s.len() && s[k] == y;
    if k > 0 {
        assert(lex_le(name_bytes(s[0]), name_bytes(s[k])));
    } else {
        lemma_lex_total(name_bytes(s[0]), name_bytes(s[0]));
    }
}

/// Two arrangements in ascending filename order of the same records, where a
/// filename determines the record, are one and the same sequence.
pub proof fn lemma_sorted_unique(s1: Seq<TreeEntryView>, s2: Seq<TreeEntryView>)
    requires
        sorted_by_name(s1),
        sorted_by_name(s2),
        s1.to_multiset() == s2.to_multiset(),
        names_determine(s1.to_multiset()),
    ensures
        s1 == s2,
    decreases s1.len(),
{
    s1.to_multiset_ensures();
    s2.to_multiset_ensures();
    if s1.len() == 0 {
        assert(s1 =~= s2);
    } else {
        let m = s1.to_multiset();
        let x = s1[0];
        let y = s2[0];
        assert(s1.contains(x));
        assert(s2.contains(y));
        assert(s1.to_multiset().count(x) > 0);
        assert(s2.to_multiset().count(x) > 0);
        assert(s2.to_multiset().count(y) > 0);
        assert(s1.to_multiset().count(y) > 0);
        assert(s2.contains(x));
        assert(s1.contains(y));
        lemma_first_is_least(s1, y);
        lemma_first_is_least(s2, x);
        lemma_lex_antisymmetric(name_bytes(x), name_bytes(y));
        encode_utf8_decode_utf8(x.filename);
        encode_utf8_decode_utf8(y.filename);
        assert(m.count(x) > 0 && m.count(y) > 0);
        assert(x == y);
        let t1 = s1.drop_first();
        let t2 = s2.drop_first();
        assert(s1.remove(0) =~= t1);
        assert(s2.remove(0) =~= t2);
        assert(t1.to_multiset() == m.remove(x));
        assert(t2.to_multiset() == m.remove(x));
        assert(names_determine(t1.to_multiset())) by {
            assert forall|a: TreeEntryView, b: TreeEntryView|
                #![trigger t1.to_multiset().count(a), t1.to_multiset().count(b)]
                t1.to_multiset().count(a) > 0 && t1.to_multiset().count(b) > 0 && a.filename
                    == b.filename implies a == b by {
                assert(m.count(a) > 0);
                assert(m.count(b) > 0);
            }
        }
        lemma_sorted_drop_first(s1);
        lemma_sorted_drop_first(s2);
        lemma_sorted_unique(t1, t2);
        assert(s1 =~= seq![x] + t1);
        assert(s2 =~= seq![y] + t2);
    }
}

} // verus!

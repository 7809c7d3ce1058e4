//! Laws of the schema graph that `build_schema` produces.
use vstd::prelude::*;
use crate::graph::ClassModel;
use crate::graph::entry_label;
use crate::graph::field_edges;
use crate::graph::field_nodes;
use crate::graph::layout_edges;
use crate::graph::layout_nodes;
use crate::graph::lemma_field_nodes_len;
use crate::schema::class_keyword;
use crate::schema::class_texts;
use crate::schema::next_class;
use crate::schema::schema_of;
use crate::text::lemma_find_from;
use crate::text::occurs_at;

verus! {

/// The targets of the edges that leave node `n`, in insertion order.
pub open spec fn children(es: Seq<(nat, nat)>, n: nat) -> Seq<nat>
    decreases es.len(),
{
    if es.len() == 0 {
        seq![]
    } else if es.last().0 == n {
        children(es.drop_last(), n).push(es.last().1)
    } else {
        children(es.drop_last(), n)
    }
}

proof fn lemma_children_push(es: Seq<(nat, nat)>, e: (nat, nat), n: nat)
    ensures
        children(es.push(e), n) == if e.0 == n {
            children(es, n).push(e.1)
        } else {
            children(es, n)
        },
{
    assert(es.push(e).drop_last() =~= es);
}

proof fn lemma_children_concat(a: Seq<(nat, nat)>, b: Seq<(nat, nat)>, n: nat)
    ensures
        children(a + b, n) == children(a, n) + children(b, n),
    decreases b.len(),
{
    if b.len() == 0 {
        assert(a + b =~= a);
        assert(children(a, n) + children(b, n) =~= children(a, n));
    } else {
        lemma_children_concat(a, b.drop_last(), n);
        assert((a + b).drop_last() =~= a + b.drop_last());
        assert((a + b).last() == b.last());
        if b.last().0 == n {
            assert(children(a + b, n) =~= children(a, n) + children(b, n));
        } else {
            assert(children(a + b, n) =~= children(a, n) + children(b, n));
        }
    }
}

proof fn lemma_children_absent(es: Seq<(nat, nat)>, n: nat)
    requires
        forall|k: int| 0 <= k < es.len() ==> es[k].0 != n,
    ensures
        children(es, n) == Seq::<nat>::empty(),
    decreases es.len(),
{
    if es.len() > 0 {
        lemma_children_absent(es.drop_last(), n);
    }
}

proof fn lemma_field_edges(c: nat, fs: Seq<(Seq<char>, Seq<char>)>, n: nat)
    ensures
        forall|k: int| 0 <= k < field_edges(c, fs).len() ==> field_edges(c, fs)[k].0 == c,
        field_edges(c, fs).len() == 2 * fs.len(),
        n != c ==> children(field_edges(c, fs), n) == Seq::<nat>::empty(),
        children(field_edges(c, fs), c).len() == 2 * fs.len(),
        forall|k: int|
            0 <= k < 2 * fs.len() ==> children(field_edges(c, fs), c)[k] == c + 1 + k,
    decreases fs.len(),
{
    if fs.len() > 0 {
        let prev = field_edges(c, fs.drop_last());
        let k = (fs.len() - 1) as nat;
        lemma_field_edges(c, fs.drop_last(), n);
        lemma_children_push(prev, (c, c + 1 + 2 * k), n);
        lemma_children_push(prev.push((c, c + 1 + 2 * k)), (c, c + 2 + 2 * k), n);
        lemma_children_push(prev, (c, c + 1 + 2 * k), c);
        lemma_children_push(prev.push((c, c + 1 + 2 * k)), (c, c + 2 + 2 * k), c);
    }
}

proof fn lemma_field_nodes_at(fs: Seq<(Seq<char>, Seq<char>)>)
    ensures
        forall|j: int|
            #![trigger fs[j]]
            0 <= j < fs.len() ==> field_nodes(fs)[2 * j] == fs[j].0 && field_nodes(fs)[2 * j + 1]
                == fs[j].1,
    decreases fs.len(),
{
    if fs.len() > 0 {
        let prev = fs.drop_last();
        lemma_field_nodes_at(prev);
        lemma_field_nodes_len(prev);
        assert forall|j: int| 0 <= j < fs.len() implies field_nodes(fs)[2 * j] == #[trigger] fs[j].0
            && field_nodes(fs)[2 * j + 1] == fs[j].1 by {
            if j < prev.len() {
                assert(prev[j] == fs[j]);
            }
        }
    }
}

/// The root's children in a schema's layout: one per class, each labelled
/// with its class's name.
proof fn lemma_layout(cls: Seq<ClassModel>)
    ensures
        layout_nodes(cls).len() >= 1,
        layout_nodes(cls)[0] == entry_label(),
        forall|k: int|
            0 <= k < layout_edges(cls).len() ==> layout_edges(cls)[k].0 < layout_nodes(cls).len(),
        children(layout_edges(cls), 0).len() == cls.len(),
        forall|i: int|
            0 <= i < cls.len() ==> {
                let c = #[trigger] children(layout_edges(cls), 0)[i];
                &&& 1 <= c
                &&& (c as int) < layout_nodes(cls).len()
                &&& layout_nodes(cls)[c as int] == cls[i].0
            },
    decreases cls.len(),
{
    if cls.len() > 0 {
        let prev = cls.drop_last();
        let fs = cls.last().1;
        let np = layout_nodes(prev);
        let ep = layout_edges(prev);
        let c = np.len();
        lemma_layout(prev);
        lemma_field_nodes_len(fs);
        lemma_field_edges(c, fs, 0);
        let n = layout_nodes(cls);
        let e = layout_edges(cls);
        assert(n == np.push(cls.last().0) + field_nodes(fs));
        assert(e == ep.push((0nat, c)) + field_edges(c, fs));
        lemma_children_concat(ep.push((0nat, c)), field_edges(c, fs), 0);
        lemma_children_push(ep, (0nat, c), 0);
        assert(children(e, 0) =~= children(ep, 0).push(c));
        assert forall|k: int| 0 <= k < e.len() implies e[k].0 < n.len() by {
            if k < ep.len() {
                assert(e[k] == ep[k]);
            } else if k > ep.len() {
                assert(e[k] == field_edges(c, fs)[k - ep.len() - 1]);
            }
        }
        assert forall|i: int| 0 <= i < cls.len() implies {
            let ci = #[trigger] children(e, 0)[i];
            &&& 1 <= ci
            &&& (ci as int) < n.len()
            &&& n[ci as int] == cls[i].0
        } by {
            if i < prev.len() {
                assert(cls[i] == prev[i]);
            }
        }
    }
}

/// The children of the node of class `i` in a schema's layout: a name node
/// and a wire-type node per field, in order.
proof fn lemma_class_children(cls: Seq<ClassModel>, i: int)
    requires
        0 <= i < cls.len(),
    ensures
        ({
            let n = layout_nodes(cls);
            let ch = children(layout_edges(cls), children(layout_edges(cls), 0)[i]);
            &&& ch.len() == 2 * cls[i].1.len()
            &&& forall|k: int| 0 <= k < ch.len() ==> (#[trigger] ch[k] as int) < n.len()
            &&& forall|j: int|
                #![trigger cls[i].1[j]]
                0 <= j < cls[i].1.len() ==> n[ch[2 * j] as int] == cls[i].1[j].0 && n[ch[2 * j
                    + 1] as int] == cls[i].1[j].1
        }),
    decreases cls.len(),
{
    let prev = cls.drop_last();
    let fs = cls.last().1;
    let np = layout_nodes(prev);
    let ep = layout_edges(prev);
    let c = np.len();
    let n = layout_nodes(cls);
    let e = layout_edges(cls);
    lemma_layout(prev);
    lemma_layout(cls);
    lemma_field_nodes_len(fs);
    lemma_field_nodes_at(fs);
    assert(n == np.push(cls.last().0) + field_nodes(fs));
    assert(e == ep.push((0nat, c)) + field_edges(c, fs));
    lemma_children_concat(ep.push((0nat, c)), field_edges(c, fs), 0);
    lemma_children_push(ep, (0nat, c), 0);
    assert(children(e, 0) =~= children(ep, 0).push(c));
    let ci = children(e, 0)[i];
    assert(cls[i] == cls[i]);
    lemma_children_concat(ep.push((0nat, c)), field_edges(c, fs), ci);
    lemma_children_push(ep, (0nat, c), ci);
    lemma_field_edges(c, fs, ci);
    let ch = children(e, ci);
    if i < prev.len() {
        lemma_class_children(prev, i);
        assert(ci == children(ep, 0)[i]);
        assert(prev[i] == cls[i]);
        assert(ch =~= children(ep, ci));
        assert forall|k: int| 0 <= k < ch.len() implies (#[trigger] ch[k] as int) < n.len() by {
            assert(ch[k] == children(ep, ci)[k]);
        }
        assert forall|j: int| 0 <= j < cls[i].1.len() implies n[ch[2 * j] as int]
            == #[trigger] cls[i].1[j].0 && n[ch[2 * j + 1] as int] == cls[i].1[j].1 by {
            assert(prev[i].1[j] == cls[i].1[j]);
        }
    } else {
        assert(ci == c);
        lemma_children_absent(ep, c);
        let fch = children(field_edges(c, fs), c);
        assert(ch =~= fch);
        assert forall|k: int| 0 <= k < ch.len() implies (#[trigger] ch[k] as int) < n.len() by {
            assert(ch[k] == fch[k]);
        }
        assert forall|j: int| 0 <= j < cls[i].1.len() implies n[ch[2 * j] as int]
            == #[trigger] cls[i].1[j].0 && n[ch[2 * j + 1] as int] == cls[i].1[j].1 by {
            assert(ch[2 * j] == fch[2 * j]);
            assert(ch[2 * j + 1] == fch[2 * j + 1]);
            assert(n[c + 1 + 2 * j] == field_nodes(fs)[2 * j]);
            assert(n[c + 2 + 2 * j] == field_nodes(fs)[2 * j + 1]);
        }
    }
}

/// The root of a document's schema graph has one child per class of the
/// document, in document order, and each child is labelled with the name
/// of its class.
pub proof fn law_root_children_are_classes(doc: Seq<char>)
    ensures
        ({
            let cls = schema_of(doc);
            let roots = children(layout_edges(cls), 0);
            &&& layout_nodes(cls)[0] == entry_label()
            &&& roots.len() == cls.len()
            &&& forall|i: int|
                #![trigger cls[i]]
                0 <= i < cls.len() ==> (roots[i] as int) < layout_nodes(cls).len() && layout_nodes(
                    cls,
                )[roots[i] as int] == cls[i].0
        }),
{
    lemma_layout(schema_of(doc));
    let cls = schema_of(doc);
    assert forall|i: int| 0 <= i < cls.len() implies (children(layout_edges(cls), 0)[i] as int)
        < layout_nodes(cls).len() by {
        assert(cls[i] == cls[i]);
        let c = children(layout_edges(cls), 0)[i];
        assert(1 <= c);
        assert((c as int) < layout_nodes(cls).len());
    }
}

/// A class node of a document's schema graph has two children per field of
/// its class; read in pairs they give each field's name and wire type, in
/// declaration order.
pub proof fn law_class_children_are_fields(doc: Seq<char>, i: int)
    requires
        0 <= i < schema_of(doc).len(),
    ensures
        ({
            let cls = schema_of(doc);
            let nodes = layout_nodes(cls);
            let c = children(layout_edges(cls), 0)[i];
            let ch = children(layout_edges(cls), c);
            &&& ch.len() == 2 * cls[i].1.len()
            &&& forall|k: int| 0 <= k < ch.len() ==> (#[trigger] ch[k] as int) < nodes.len()
            &&& forall|j: int|
                #![trigger cls[i].1[j]]
                0 <= j < cls[i].1.len() ==> nodes[ch[2 * j] as int] == cls[i].1[j].0 && nodes[ch[2
                    * j + 1] as int] == cls[i].1[j].1
        }),
{
    lemma_class_children(schema_of(doc), i);
}

/// A document with no class header has no class: its graph is the root
/// node alone, with no edge.
pub proof fn law_no_class_only_root(doc: Seq<char>)
    requires
        forall|i: int| !occurs_at(doc, i, class_keyword()),
    ensures
        schema_of(doc).len() == 0,
        layout_nodes(schema_of(doc)) == seq![entry_label()],
        layout_edges(schema_of(doc)) == Seq::<(nat, nat)>::empty(),
{
    lemma_find_from(doc, class_keyword(), 0);
    assert(next_class(doc, 0) is None);
    assert(class_texts(doc, 0) =~= Seq::<Seq<char>>::empty());
    assert(schema_of(doc) =~= Seq::<ClassModel>::empty());
}

} // verus!

//! Assembling the element tree of a document from its start and end tags.
use vstd::prelude::*;
use crate::rekordbox::XmlNode;

verus! {

/// A tag of the document, in order: an element opens with its name and
/// attributes, and later closes. A self-closing element is a start and an
/// end.
#[derive(Debug)]
pub enum XmlEvent {
    Start(String, Vec<(String, String)>),
    End,
}

/// An element's values: name, attributes, and its children's values.
pub ghost struct NodeView {
    pub name: Seq<char>,
    pub attrs: Seq<(Seq<char>, Seq<char>)>,
    pub children: Seq<NodeView>,
}

pub open spec fn attrs_view(a: Seq<(String, String)>) -> Seq<(Seq<char>, Seq<char>)> {
    a.map_values(|p: (String, String)| (p.0@, p.1@))
}

/// The values of an element tree.
pub open spec fn node_view(n: XmlNode) -> NodeView
    decreases n, 1int, 0int,
{
    NodeView { name: n.name@, attrs: attrs_view(n.attrs@), children: children_view(n, n.children@.len() as int) }
}

/// The values of the first `k` children of `n`.
pub open spec fn children_view(n: XmlNode, k: int) -> Seq<NodeView>
    decreases n, 0int, k,
{
    if k <= 0 || k > n.children@.len() {
        Seq::empty()
    } else {
        children_view(n, k - 1).push(node_view(n.children@[k - 1]))
    }
}

/// Reading tags with a stack of open elements: a start opens an element,
/// an end closes the innermost one and adds it to its parent. The result
/// is the stack and, once the outermost element closes, that element;
/// later tags are ignored. `None` for an end with no element open.
pub open spec fn assemble(evs: Seq<XmlEvent>) -> Option<(Seq<NodeView>, Option<NodeView>)>
    decreases evs.len(),
{
    if evs.len() == 0 {
        Some((Seq::empty(), None))
    } else {
        match assemble(evs.drop_last()) {
            None => None,
            Some((st, done)) => if done is Some {
                Some((st, done))
            } else {
                match evs.last() {
                    XmlEvent::Start(name, attrs) => Some((
                        st.push(NodeView { name: name@, attrs: attrs_view(attrs@), children: Seq::empty() }),
                        None,
                    )),
                    XmlEvent::End => if st.len() == 0 {
                        None
                    } else {
                        let top = st.last();
                        let rest = st.drop_last();
                        if rest.len() == 0 {
                            Some((rest, Some(top)))
                        } else {
                            let p = rest.last();
                            Some((rest.drop_last().push(NodeView { children: p.children.push(top), ..p }), None))
                        }
                    },
                }
            },
        }
    }
}

pub open spec fn stack_view(st: Seq<XmlNode>) -> Seq<NodeView> {
    st.map_values(|n: XmlNode| node_view(n))
}

proof fn lemma_children_view_prefix(a: XmlNode, b: XmlNode, k: int)
    requires
        0 <= k <= a.children@.len(),
        k <= b.children@.len(),
        forall|i: int| 0 <= i < k ==> a.children@[i] == b.children@[i],
    ensures
        children_view(a, k) == children_view(b, k),
    decreases k,
{
    if k > 0 {
        lemma_children_view_prefix(a, b, k - 1);
    }
}

proof fn lemma_assemble_none_extends(evs: Seq<XmlEvent>, k: int)
    requires
        0 <= k <= evs.len(),
        assemble(evs.subrange(0, k)) is None,
    ensures
        assemble(evs) is None,
    decreases evs.len() - k,
{
    if k < evs.len() {
        assert(evs.subrange(0, k + 1).drop_last() =~= evs.subrange(0, k));
        lemma_assemble_none_extends(evs, k + 1);
    } else {
        assert(evs.subrange(0, k) =~= evs);
    }
}

proof fn lemma_assemble_done_stays(evs: Seq<XmlEvent>, k: int, st: Seq<NodeView>, v: NodeView)
    requires
        0 <= k <= evs.len(),
        assemble(evs.subrange(0, k)) == Some((st, Some(v))),
    ensures
        assemble(evs) == Some((st, Some(v))),
    decreases evs.len() - k,
{
    if k < evs.len() {
        assert(evs.subrange(0, k + 1).drop_last() =~= evs.subrange(0, k));
        lemma_assemble_done_stays(evs, k + 1, st, v);
    } else {
        assert(evs.subrange(0, k) =~= evs);
    }
}

fn copy_attrs(v: &Vec<(String, String)>) -> (r: Vec<(String, String)>)
    ensures
        attrs_view(r@) == attrs_view(v@),
{
    let mut r: Vec<(String, String)> = Vec::new();
    let mut i: usize = 0;
    while i < v.len()
        invariant
            i <= v@.len(),
            r@.len() == i,
            forall|j: int| 0 <= j < i ==> #[trigger] r@[j].0@ == v@[j].0@ && r@[j].1@ == v@[j].1@,
        decreases v@.len() - i,
    {
        r.push((v[i].0.clone(), v[i].1.clone()));
        i = i + 1;
    }
    assert(attrs_view(r@) =~= attrs_view(v@));
    r
}

/// The outermost element of a document, from its tags: `None` where the
/// tags close an element that was never opened or end before the
/// outermost element closes. Tags after it are ignored.
pub fn build_tree(events: &Vec<XmlEvent>) -> (r: Option<XmlNode>)
    ensures
        match r {
            Some(n) => assemble(events@) matches Some((_, Some(v))) && v == node_view(n),
            None => !(assemble(events@) matches Some((_, Some(_)))),
        },
{
    let mut stack: Vec<XmlNode> = Vec::new();
    let mut i: usize = 0;
    assert(stack_view(stack@) =~= Seq::<NodeView>::empty());
    while i < events.len()
        invariant
            i <= events@.len(),
            assemble(events@.subrange(0, i as int)) == Some((stack_view(stack@), None::<NodeView>)),
        decreases events@.len() - i,
    {
        proof {
            assert(events@.subrange(0, i + 1).drop_last() =~= events@.subrange(0, i as int));
            assert(events@.subrange(0, i + 1).last() == events@[i as int]);
        }
        match &events[i] {
            XmlEvent::Start(name, attrs) => {
                let n = XmlNode { name: name.clone(), attrs: copy_attrs(attrs), children: Vec::new() };
                proof {
                    assert(children_view(n, 0) =~= Seq::<NodeView>::empty());
                }
                let ghost before = stack@;
                stack.push(n);
                assert(stack_view(stack@) =~= stack_view(before).push(node_view(n)));
            },
            XmlEvent::End => {
                let ghost before = stack@;
                match stack.pop() {
                    None => {
                        proof { lemma_assemble_none_extends(events@, i + 1); }
                        return None;
                    },
                    Some(top) => {
                        assert(stack_view(stack@) =~= stack_view(before).drop_last());
                        match stack.pop() {
                            None => {
                                proof {
                                    lemma_assemble_done_stays(events@, i + 1, stack_view(stack@), node_view(top));
                                }
                                return Some(top);
                            },
                            Some(parent) => {
                                let ghost pv = node_view(parent);
                                let ghost old_parent = parent;
                                let mut parent = parent;
                                let ghost tv = node_view(top);
                                parent.children.push(top);
                                proof {
                                    let len = old_parent.children@.len() as int;
                                    lemma_children_view_prefix(old_parent, parent, len);
                                    assert(children_view(parent, len + 1)
                                        == children_view(parent, len).push(tv));
                                    assert(node_view(parent) == NodeView { children: pv.children.push(tv), ..pv });
                                }
                                let ghost mid = stack@;
                                stack.push(parent);
                                assert(stack_view(stack@) =~= stack_view(mid).push(node_view(parent)));
                                assert(stack_view(mid) =~= stack_view(before).drop_last().drop_last());
                            },
                        }
                    },
                }
            },
        }
        i = i + 1;
    }
    assert(events@.subrange(0, events@.len() as int) =~= events@);
    None
}

} // verus!

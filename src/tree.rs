use vstd::prelude::*;

verus! {

broadcast use vstd::std_specs::vec::axiom_vec_index_decreases, vstd::seq::axiom_seq_index_decreases;

/// A configuration value: a leaf holding a plain value, or a group of fields
/// in declaration order.
#[derive(Debug, PartialEq)]
pub enum Node<V> {
    Leaf(V),
    Group(Vec<Node<V>>),
}

/// An options value, parallel to a configuration value: each leaf is present
/// or absent, and each group is always there, with absence expressed inside it.
#[derive(Debug, PartialEq)]
pub enum OptNode<V> {
    Leaf(Option<V>),
    Group(Vec<OptNode<V>>),
}

/// Mathematical form of a configuration value.
pub enum Tree<V> {
    Leaf(V),
    Group(Seq<Tree<V>>),
}

/// Mathematical form of an options value.
pub enum Overlay<V> {
    Leaf(Option<V>),
    Group(Seq<Overlay<V>>),
}

/// The mathematical form of a configuration value.
pub open spec fn tree_of<V>(n: Node<V>) -> Tree<V>
    decreases n,
{
    match n {
        Node::Leaf(v) => Tree::Leaf(v),
        Node::Group(g) => Tree::Group(
            Seq::new(
                g.len() as nat,
                |i: int|
                    if 0 <= i < g.len() {
                        tree_of(g[i])
                    } else {
                        Tree::Group(Seq::empty())
                    },
            ),
        ),
    }
}

/// The mathematical form of an options value.
pub open spec fn overlay_of<V>(o: OptNode<V>) -> Overlay<V>
    decreases o,
{
    match o {
        OptNode::Leaf(v) => Overlay::Leaf(v),
        OptNode::Group(g) => Overlay::Group(
            Seq::new(
                g.len() as nat,
                |i: int|
                    if 0 <= i < g.len() {
                        overlay_of(g[i])
                    } else {
                        Overlay::Group(Seq::empty())
                    },
            ),
        ),
    }
}

impl<V> View for Node<V> {
    type V = Tree<V>;

    open spec fn view(&self) -> Tree<V> {
        tree_of(*self)
    }
}

impl<V> View for OptNode<V> {
    type V = Overlay<V>;

    open spec fn view(&self) -> Overlay<V> {
        overlay_of(*self)
    }
}

/// The options value has the shape of the configuration value: a leaf
/// against each leaf, and a group of as many fields against each group.
pub open spec fn fits<V>(t: Tree<V>, o: Overlay<V>) -> bool
    decreases t,
{
    match t {
        Tree::Leaf(_) => o is Leaf,
        Tree::Group(ts) => o is Group && ts.len() == o->Group_0.len() && forall|i: int|
            #![trigger ts[i]]
            0 <= i < ts.len() ==> fits(ts[i], o->Group_0[i]),
    }
}

/// Every leaf of the options value, at every depth, is absent.
pub open spec fn is_blank<V>(o: Overlay<V>) -> bool
    decreases o,
{
    match o {
        Overlay::Leaf(v) => v is None,
        Overlay::Group(os) => forall|i: int| #![trigger os[i]] 0 <= i < os.len() ==> is_blank(os[i]),
    }
}

/// The options value folded onto the configuration value: a present leaf
/// replaces the base leaf, an absent one leaves it, and groups merge field by
/// field.
pub open spec fn merged<V>(t: Tree<V>, o: Overlay<V>) -> Tree<V>
    decreases t,
{
    match t {
        Tree::Leaf(b) => match o {
            Overlay::Leaf(Some(x)) => Tree::Leaf(x),
            _ => t,
        },
        Tree::Group(ts) => match o {
            Overlay::Group(os) => Tree::Group(
                Seq::new(
                    ts.len(),
                    |i: int|
                        if 0 <= i < ts.len() {
                            merged(ts[i], os[i])
                        } else {
                            ts[i]
                        },
                ),
            ),
            _ => t,
        },
    }
}

/// Merges `opts` into `base` in place.
pub fn update<V>(base: &mut Node<V>, opts: OptNode<V>)
    requires
        fits(old(base)@, opts@),
    ensures
        final(base)@ == merged(old(base)@, opts@),
    decreases opts,
{
    let ghost ov = opts@;
    let ghost og = opts;
    match opts {
        OptNode::Leaf(Some(v)) => {
            *base = Node::Leaf(v);
        },
        OptNode::Leaf(None) => {},
        OptNode::Group(mut os) => {
            match base {
                Node::Group(bs) => {
                    let ghost os0 = os@;
                    let ghost bs0 = bs@;
                    let ghost ts = old(base)@->Group_0;
                    let ghost vs = ov->Group_0;
                    proof {
                        assert(ts.len() == bs0.len());
                        assert(vs.len() == os0.len());
                        assert forall|i: int| 0 <= i < bs0.len() implies fits(
                            #[trigger] bs0[i]@,
                            os0[i]@,
                        ) by {
                            assert(ts[i] == bs0[i]@);
                            assert(vs[i] == os0[i]@);
                            assert(fits(ts[i], vs[i]));
                        }
                    }
                    let mut k: usize = os.len();
                    while k > 0
                        invariant
                            k == os.len(),
                            k <= os0.len(),
                            ts.len() == vs.len() == os0.len(),
                            forall|i: int| 0 <= i < os0.len() ==> vs[i] == (#[trigger] os0[i])@,
                            forall|i: int| 0 <= i < os0.len() ==> ts[i] == (#[trigger] bs0[i])@,
                            old(base)@ == Tree::Group(ts),
                            ov == Overlay::Group(vs),
                            og == opts,
                            og is Group,
                            og->Group_0@ == os0,
                            os@ == os0.subrange(0, k as int),
                            bs.len() == bs0.len() == os0.len(),
                            forall|i: int| 0 <= i < k ==> bs@[i] == bs0[i],
                            forall|i: int|
                                k <= i < bs0.len() ==> #[trigger] bs@[i]@ == merged(bs0[i]@, os0[i]@),
                            forall|i: int| 0 <= i < bs0.len() ==> fits(#[trigger] bs0[i]@, os0[i]@),
                        decreases k,
                    {
                        proof {
                            assert(os@[k - 1] == os0[k - 1]);
                        }
                        let o = os.pop().unwrap();
                        k = k - 1;
                        proof {
                            assert(o == os0[k as int]);
                            assert(vs[k as int] == o@);
                            assert(og->Group_0@ == os0);
                            assert(decreases_to!(og => og->Group_0));
                            assert(decreases_to!(og->Group_0 => og->Group_0[k as int]));
                            assert(decreases_to!(og => o));
                        }
                        update(&mut bs[k], o);
                    }
                    proof {
                        let ns = tree_of(Node::Group(*bs))->Group_0;
                        assert(ns =~= merged(old(base)@, ov)->Group_0) by {
                            assert forall|i: int| 0 <= i < ns.len() implies ns[i] == merged(
                                ts[i],
                                vs[i],
                            ) by {
                                assert(ns[i] == bs@[i]@);
                            }
                        }
                    }
                },
                Node::Leaf(_) => {},
            }
        },
    }
}


/// Two options values folded into one: per leaf, the later one's value when
/// present, else the earlier one's.
pub open spec fn layered<V>(first: Overlay<V>, second: Overlay<V>) -> Overlay<V>
    decreases first,
{
    match first {
        Overlay::Leaf(a) => match second {
            Overlay::Leaf(Some(b)) => Overlay::Leaf(Some(b)),
            _ => Overlay::Leaf(a),
        },
        Overlay::Group(fs) => match second {
            Overlay::Group(ss) => Overlay::Group(
                Seq::new(
                    fs.len(),
                    |i: int|
                        if 0 <= i < fs.len() {
                            layered(fs[i], ss[i])
                        } else {
                            fs[i]
                        },
                ),
            ),
            _ => first,
        },
    }
}

/// Merging an options value whose leaves are all absent leaves the
/// configuration value as it was, at every depth.
pub proof fn lemma_merge_blank<V>(t: Tree<V>, o: Overlay<V>)
    requires
        fits(t, o),
        is_blank(o),
    ensures
        merged(t, o) == t,
    decreases t,
{
    if let Tree::Group(ts) = t {
        let os = o->Group_0;
        assert forall|i: int| 0 <= i < ts.len() implies merged(ts[i], os[i]) == ts[i] by {
            lemma_merge_blank(ts[i], os[i]);
        }
        assert(merged(t, o)->Group_0 =~= ts);
    }
}

/// Merging twice is merging once with the two options values layered, the
/// later one taking precedence leaf by leaf.
pub proof fn lemma_merge_twice<V>(t: Tree<V>, first: Overlay<V>, second: Overlay<V>)
    requires
        fits(t, first),
        fits(t, second),
    ensures
        fits(t, layered(first, second)),
        fits(merged(t, first), second),
        merged(merged(t, first), second) == merged(t, layered(first, second)),
    decreases t,
{
    if let Tree::Group(ts) = t {
        let fs = first->Group_0;
        let ss = second->Group_0;
        let ls = layered(first, second)->Group_0;
        let ms = merged(t, first)->Group_0;
        assert forall|i: int| 0 <= i < ts.len() implies fits(ts[i], #[trigger] ls[i]) && fits(
            ms[i],
            ss[i],
        ) && merged(ms[i], ss[i]) == merged(ts[i], ls[i]) by {
            lemma_merge_twice(ts[i], fs[i], ss[i]);
        }
        assert forall|i: int| 0 <= i < ms.len() implies fits(#[trigger] ms[i], ss[i]) by {
            assert(fits(ts[i], ls[i]));
        }
        assert(merged(merged(t, first), second)->Group_0 =~= merged(t, layered(first, second))->Group_0);
    }
}

/// Setting one leaf field of a group, with every other field absent, replaces
/// that field and keeps every other one.
pub proof fn lemma_override_field<V>(ts: Seq<Tree<V>>, os: Seq<Overlay<V>>, k: int, v: V)
    requires
        fits(Tree::Group(ts), Overlay::Group(os)),
        0 <= k < ts.len(),
        os[k] == Overlay::Leaf(Some(v)),
        forall|j: int| 0 <= j < os.len() && j != k ==> is_blank(#[trigger] os[j]),
    ensures
        merged(Tree::Group(ts), Overlay::Group(os)) == Tree::Group(ts.update(k, Tree::Leaf(v))),
{
    assert forall|j: int| 0 <= j < ts.len() && j != k implies merged(ts[j], os[j]) == ts[j] by {
        lemma_merge_blank(ts[j], os[j]);
    }
    assert(fits(ts[k], os[k]));
    assert(merged(ts[k], os[k]) == Tree::<V>::Leaf(v));
    assert(merged(Tree::Group(ts), Overlay::Group(os))->Group_0 =~= ts.update(k, Tree::Leaf(v)));
}

/// Setting one leaf inside a nested group, with every other leaf absent,
/// replaces that leaf alone: its siblings in the nested group and every field
/// outside it are kept.
pub proof fn lemma_override_nested<V>(
    ts: Seq<Tree<V>>,
    os: Seq<Overlay<V>>,
    n: int,
    f: int,
    v: V,
)
    requires
        fits(Tree::Group(ts), Overlay::Group(os)),
        0 <= n < ts.len(),
        ts[n] is Group,
        os[n] is Group,
        0 <= f < ts[n]->Group_0.len(),
        os[n]->Group_0[f] == Overlay::Leaf(Some(v)),
        forall|j: int|
            0 <= j < os[n]->Group_0.len() && j != f ==> is_blank(#[trigger] os[n]->Group_0[j]),
        forall|j: int| 0 <= j < os.len() && j != n ==> is_blank(#[trigger] os[j]),
    ensures
        merged(Tree::Group(ts), Overlay::Group(os)) == Tree::Group(
            ts.update(n, Tree::Group(ts[n]->Group_0.update(f, Tree::Leaf(v)))),
        ),
{
    lemma_override_field(ts[n]->Group_0, os[n]->Group_0, f, v);
    assert(ts[n] == Tree::Group(ts[n]->Group_0));
    assert(os[n] == Overlay::Group(os[n]->Group_0));
    assert forall|j: int| 0 <= j < ts.len() && j != n implies merged(ts[j], os[j]) == ts[j] by {
        lemma_merge_blank(ts[j], os[j]);
    }
    assert(merged(Tree::Group(ts), Overlay::Group(os))->Group_0 =~= ts.update(
        n,
        Tree::Group(ts[n]->Group_0.update(f, Tree::Leaf(v))),
    ));
}

/// A group without fields is left as it is by any options value that fits it.
pub proof fn lemma_merge_unit<V>(o: Overlay<V>)
    requires
        fits(Tree::<V>::Group(Seq::empty()), o),
    ensures
        merged(Tree::<V>::Group(Seq::empty()), o) == Tree::<V>::Group(Seq::empty()),
{
    assert(merged(Tree::<V>::Group(Seq::empty()), o)->Group_0 =~= Seq::<Tree<V>>::empty());
}

} // verus!

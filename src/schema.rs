use vstd::prelude::*;

use crate::tree::{fits, merged, Node, OptNode, Overlay, Tree};

verus! {

broadcast use
    vstd::std_specs::vec::axiom_vec_index_decreases,
    vstd::seq::axiom_seq_index_decreases,
    vstd::string::next_postcondition,
    vstd::string::axiom_spec_iter,
;

/// A leaf field of a configuration: its identifier and how the command line
/// spells it.
pub struct LeafSpec {
    pub id: String,
    pub short: Option<char>,
    pub long: Option<String>,
    /// The field takes a text value; otherwise it is a boolean flag.
    pub takes_value: bool,
}

/// The description of a configuration's fields: a leaf, or a nested group
/// whose fields are listed in declaration order.
pub enum FieldSpec {
    Leaf(LeafSpec),
    Nested(Vec<FieldSpec>),
}

/// The plain value that a leaf field holds.
#[derive(Debug, PartialEq, Eq)]
pub enum Value {
    Flag(bool),
    Text(String),
}

/// The leaves of the schema in declaration order, those of nested groups in
/// their place.
pub open spec fn leaves_of(s: FieldSpec) -> Seq<LeafSpec>
    decreases s, 0int,
{
    match s {
        FieldSpec::Leaf(l) => seq![l],
        FieldSpec::Nested(fs) => leaves_from(fs, 0),
    }
}

/// The leaves of the fields from index `i` on.
pub open spec fn leaves_from(fs: Vec<FieldSpec>, i: int) -> Seq<LeafSpec>
    decreases fs, fs.len() - i,
{
    if 0 <= i < fs.len() {
        leaves_of(fs[i]) + leaves_from(fs, i + 1)
    } else {
        Seq::empty()
    }
}

/// The spellings that the command line accepts for one leaf are well formed
/// and leave the built-in help argument (`help`, `-h`, `--help`) alone; a
/// flag has a short or a long spelling, since only a value can stand alone.
pub open spec fn leaf_spelled(l: LeafSpec) -> bool {
    &&& l.id@ != "help"@
    &&& !l.takes_value ==> l.short is Some || l.long is Some
    &&& l.short != Some('-')
    &&& l.short != Some('h')
    &&& l.long is Some ==> l.long->Some_0@ != "help"@ && (l.long->Some_0@.len() == 0
        || l.long->Some_0@[0] != '-')
}

/// Every leaf is well spelled, and no two leaves share an identifier, a short
/// spelling or a long one.
pub open spec fn well_spelled(s: FieldSpec) -> bool {
    spellings_ok(leaves_of(s))
}

/// Every leaf of the list is well spelled, and no two share an identifier, a
/// short spelling or a long one.
pub open spec fn spellings_ok(ls: Seq<LeafSpec>) -> bool {
    &&& forall|i: int| 0 <= i < ls.len() ==> leaf_spelled(#[trigger] ls[i])
    &&& forall|i: int, j: int|
        0 <= i < j < ls.len() ==> distinct_spellings(#[trigger] ls[i], #[trigger] ls[j])
}

/// Two leaves differ in identifier, in short spelling and in long spelling,
/// where both have one.
pub open spec fn distinct_spellings(a: LeafSpec, b: LeafSpec) -> bool {
    &&& a.id@ != b.id@
    &&& a.short is Some ==> a.short != b.short
    &&& a.long is Some && b.long is Some ==> a.long->Some_0@ != b.long->Some_0@
}

/// A leaf's spelling as plain values: identifier, short spelling, long
/// spelling, and whether it takes a value.
pub open spec fn spelling_of(l: LeafSpec) -> (Seq<char>, Option<char>, Option<Seq<char>>, bool) {
    (l.id@, l.short, text_view(l.long), l.takes_value)
}

/// The view of an optional text.
pub open spec fn text_view(t: Option<String>) -> Option<Seq<char>> {
    match t {
        Some(x) => Some(x@),
        None => None,
    }
}

/// What the command line gave for one leaf, as plain values: the stored
/// boolean of a flag, and the text of an option.
pub type Reading = (Option<bool>, Option<Seq<char>>);

/// The leaf's entry of an options value, read from what the command line gave
/// for it: a flag is present, and `true`, only when it was set; an option is
/// present with the text given.
pub open spec fn value_read(l: LeafSpec, v: Reading, o: Option<Value>) -> bool {
    if l.takes_value {
        match v.1 {
            Some(x) => o is Some && o->Some_0 is Text && o->Some_0->Text_0@ == x,
            None => o is None,
        }
    } else {
        o == (if v.0 == Some(true) {
            Some(Value::Flag(true))
        } else {
            None
        })
    }
}

/// Where the leaves of field `i` start among the leaves of the group.
pub open spec fn offset(fs: Vec<FieldSpec>, i: int) -> int {
    leaves_from(fs, 0).len() - leaves_from(fs, i).len()
}

/// The options value holds, leaf by leaf in declaration order, what `vals`
/// gives from index `start` on.
pub open spec fn read_at(s: FieldSpec, o: Overlay<Value>, vals: Seq<Reading>, start: int) -> bool
    decreases s,
{
    match s {
        FieldSpec::Leaf(l) => o is Leaf && value_read(l, vals[start], o->Leaf_0),
        FieldSpec::Nested(fs) => o is Group && o->Group_0.len() == fs.len() && forall|i: int|
            #![trigger fs[i]]
            0 <= i < fs.len() ==> read_at(fs[i], o->Group_0[i], vals, start + offset(fs, i)),
    }
}

/// The value has the kind that the leaf declares.
pub open spec fn kind_ok(l: LeafSpec, v: Value) -> bool {
    if l.takes_value {
        v is Text
    } else {
        v is Flag
    }
}

/// The configuration value has the shape and the leaf kinds of the schema.
pub open spec fn conforms(s: FieldSpec, t: Tree<Value>) -> bool
    decreases s,
{
    match s {
        FieldSpec::Leaf(l) => t is Leaf && kind_ok(l, t->Leaf_0),
        FieldSpec::Nested(fs) => t is Group && t->Group_0.len() == fs.len() && forall|i: int|
            #![trigger fs[i]]
            0 <= i < fs.len() ==> conforms(fs[i], t->Group_0[i]),
    }
}

/// Every leaf of the configuration value holds its default: `false` for a
/// flag, the empty text for an option.
pub open spec fn is_default(s: FieldSpec, t: Tree<Value>) -> bool
    decreases s,
{
    match s {
        FieldSpec::Leaf(l) => t is Leaf && if l.takes_value {
            t->Leaf_0 is Text && t->Leaf_0->Text_0@.len() == 0
        } else {
            t->Leaf_0 == Value::Flag(false)
        },
        FieldSpec::Nested(fs) => t is Group && t->Group_0.len() == fs.len() && forall|i: int|
            #![trigger fs[i]]
            0 <= i < fs.len() ==> is_default(fs[i], t->Group_0[i]),
    }
}

/// The options value is the schema's mirror: an optional value of the leaf's
/// kind for each leaf, and a group that is always there for each nested group.
pub open spec fn mirrors(s: FieldSpec, o: Overlay<Value>) -> bool
    decreases s,
{
    match s {
        FieldSpec::Leaf(l) => o is Leaf && match o->Leaf_0 {
            Some(v) => kind_ok(l, v),
            None => true,
        },
        FieldSpec::Nested(fs) => o is Group && o->Group_0.len() == fs.len() && forall|i: int|
            #![trigger fs[i]]
            0 <= i < fs.len() ==> mirrors(fs[i], o->Group_0[i]),
    }
}

/// A configuration value and an options value of one schema fit each other,
/// and what merging them gives has that schema too.
pub proof fn lemma_mirror_fits(s: FieldSpec, t: Tree<Value>, o: Overlay<Value>)
    requires
        conforms(s, t),
        mirrors(s, o),
    ensures
        fits(t, o),
        conforms(s, merged(t, o)),
    decreases s,
{
    if let FieldSpec::Nested(fs) = s {
        let ts = t->Group_0;
        let os = o->Group_0;
        let ms = merged(t, o)->Group_0;
        assert forall|i: int| 0 <= i < ts.len() implies fits(#[trigger] ts[i], os[i]) && conforms(
            fs[i],
            ms[i],
        ) by {
            lemma_mirror_fits(fs[i], ts[i], os[i]);
        }
    }
}

/// The value that a leaf holds before any options value is merged.
pub fn default_value(l: &LeafSpec) -> (r: Value)
    ensures
        l.takes_value ==> r is Text && r->Text_0@.len() == 0,
        !l.takes_value ==> r == Value::Flag(false),
{
    if l.takes_value {
        Value::Text(String::new())
    } else {
        Value::Flag(false)
    }
}

/// The configuration value that holds the default of every leaf.
pub fn defaults(s: &FieldSpec) -> (r: Node<Value>)
    ensures
        conforms(*s, r@),
        is_default(*s, r@),
    decreases s,
{
    match s {
        FieldSpec::Leaf(l) => Node::Leaf(default_value(l)),
        FieldSpec::Nested(fs) => {
            let mut g: Vec<Node<Value>> = Vec::new();
            let mut i: usize = 0;
            while i < fs.len()
                invariant
                    i <= fs.len(),
                    *s == FieldSpec::Nested(*fs),
                    g.len() == i,
                    forall|j: int| 0 <= j < i ==> conforms(#[trigger] fs[j], g[j]@),
                    forall|j: int| 0 <= j < i ==> is_default(#[trigger] fs[j], g[j]@),
                decreases fs.len() - i,
            {
                proof {
                    assert(decreases_to!(*s => s->Nested_0));
                    assert(decreases_to!(s->Nested_0 => s->Nested_0[i as int]));
                }
                let n = defaults(&fs[i]);
                g.push(n);
                i = i + 1;
            }
            let r = Node::Group(g);
            proof {
                assert(r@->Group_0.len() == g.len());
                assert forall|j: int| 0 <= j < fs.len() implies conforms(
                    #[trigger] fs[j],
                    r@->Group_0[j],
                ) && is_default(fs[j], r@->Group_0[j]) by {
                    assert(r@->Group_0[j] == g[j]@);
                }
            }
            r
        },
    }
}

/// The options value with every leaf absent.
pub fn blank_options(s: &FieldSpec) -> (r: OptNode<Value>)
    ensures
        mirrors(*s, r@),
        crate::tree::is_blank(r@),
    decreases s,
{
    match s {
        FieldSpec::Leaf(_) => OptNode::Leaf(None),
        FieldSpec::Nested(fs) => {
            let mut g: Vec<OptNode<Value>> = Vec::new();
            let mut i: usize = 0;
            while i < fs.len()
                invariant
                    i <= fs.len(),
                    *s == FieldSpec::Nested(*fs),
                    g.len() == i,
                    forall|j: int| 0 <= j < i ==> mirrors(#[trigger] fs[j], g[j]@),
                    forall|j: int| 0 <= j < i ==> crate::tree::is_blank(#[trigger] g[j]@),
                decreases fs.len() - i,
            {
                proof {
                    assert(decreases_to!(*s => s->Nested_0));
                    assert(decreases_to!(s->Nested_0 => s->Nested_0[i as int]));
                }
                let n = blank_options(&fs[i]);
                g.push(n);
                i = i + 1;
            }
            let r = OptNode::Group(g);
            proof {
                assert(r@->Group_0.len() == g.len());
                assert forall|j: int| 0 <= j < fs.len() implies mirrors(
                    #[trigger] fs[j],
                    r@->Group_0[j],
                ) by {
                    assert(r@->Group_0[j] == g[j]@);
                }
                assert forall|j: int| 0 <= j < fs.len() implies crate::tree::is_blank(
                    #[trigger] r@->Group_0[j],
                ) by {
                    assert(r@->Group_0[j] == g[j]@);
                }
            }
            r
        },
    }
}


/// Appends the leaves of the schema to `out`, in declaration order.
pub(crate) fn collect_leaves<'a>(s: &'a FieldSpec, out: &mut Vec<&'a LeafSpec>)
    ensures
        final(out)@.map_values(|l: &LeafSpec| *l) == old(out)@.map_values(|l: &LeafSpec| *l)
            + leaves_of(*s),
    decreases s,
{
    match s {
        FieldSpec::Leaf(l) => {
            out.push(l);
            assert(final(out)@.map_values(|l: &LeafSpec| *l) =~= old(out)@.map_values(
                |l: &LeafSpec| *l,
            ) + leaves_of(*s));
        },
        FieldSpec::Nested(fs) => {
            let mut i: usize = 0;
            while i < fs.len()
                invariant
                    i <= fs.len(),
                    *s == FieldSpec::Nested(*fs),
                    out@.map_values(|l: &LeafSpec| *l) + leaves_from(*fs, i as int) == old(
                        out,
                    )@.map_values(|l: &LeafSpec| *l) + leaves_from(*fs, 0),
                decreases fs.len() - i,
            {
                proof {
                    assert(decreases_to!(*s => s->Nested_0));
                    assert(decreases_to!(s->Nested_0 => s->Nested_0[i as int]));
                }
                let ghost before = out@.map_values(|l: &LeafSpec| *l);
                collect_leaves(&fs[i], out);
                proof {
                    assert(leaves_from(*fs, i as int) == leaves_of(fs[i as int]) + leaves_from(
                        *fs,
                        i + 1,
                    ));
                    vstd::seq_lib::lemma_concat_associative(
                        before,
                        leaves_of(fs[i as int]),
                        leaves_from(*fs, i + 1),
                    );
                }
                i = i + 1;
            }
            proof {
                assert(leaves_from(*fs, i as int) =~= Seq::empty());
                assert(out@.map_values(|l: &LeafSpec| *l) + Seq::<LeafSpec>::empty() =~= out@.map_values(
                    |l: &LeafSpec| *l,
                ));
            }
        },
    }
}


fn starts_with_dash(t: &String) -> (r: bool)
    ensures
        r == (t@.len() > 0 && t@[0] == '-'),
{
    let mut it = t.as_str().chars();
    match it.next() {
        Some(c) => c == '-',
        None => false,
    }
}

fn leaf_is_spelled(l: &LeafSpec) -> (r: bool)
    ensures
        r == leaf_spelled(*l),
{
    let help = "help".to_owned();
    if l.id == help {
        return false;
    }
    if !l.takes_value && l.short.is_none() && l.long.is_none() {
        return false;
    }
    match l.short {
        Some(c) => {
            if c == '-' || c == 'h' {
                return false;
            }
        },
        None => {},
    }
    match &l.long {
        Some(name) => {
            !(*name == help) && !starts_with_dash(name)
        },
        None => true,
    }
}

fn spellings_differ(a: &LeafSpec, b: &LeafSpec) -> (r: bool)
    ensures
        r == distinct_spellings(*a, *b),
{
    if a.id == b.id {
        return false;
    }
    match (a.short, b.short) {
        (Some(x), Some(y)) => {
            if x == y {
                return false;
            }
        },
        _ => {},
    }
    match (&a.long, &b.long) {
        (Some(x), Some(y)) => !(*x == *y),
        _ => true,
    }
}

/// Whether the schema can be declared on a command line: every leaf well
/// spelled, and no identifier or spelling used twice.
pub fn check_spelling(s: &FieldSpec) -> (r: bool)
    ensures
        r == well_spelled(*s),
{
    let mut ls: Vec<&LeafSpec> = Vec::new();
    collect_leaves(s, &mut ls);
    let ghost sl = leaves_of(*s);
    assert(ls@.map_values(|l: &LeafSpec| *l) =~= sl);
    assert(forall|k: int| 0 <= k < ls.len() ==> *ls@[k] == #[trigger] sl[k]);
    let n = ls.len();
    let mut i: usize = 0;
    while i < n
        invariant
            n == ls.len() == sl.len(),
            sl == leaves_of(*s),
            i <= n,
            forall|k: int| 0 <= k < ls.len() ==> *ls@[k] == #[trigger] sl[k],
            forall|k: int| 0 <= k < i ==> leaf_spelled(#[trigger] sl[k]),
        decreases n - i,
    {
        if !leaf_is_spelled(ls[i]) {
            assert(!leaf_spelled(sl[i as int]));
            assert(!well_spelled(*s));
            return false;
        }
        i = i + 1;
    }
    i = 0;
    while i < n
        invariant
            n == ls.len() == sl.len(),
            sl == leaves_of(*s),
            i <= n,
            forall|k: int| 0 <= k < ls.len() ==> *ls@[k] == #[trigger] sl[k],
            forall|k: int| 0 <= k < n ==> leaf_spelled(#[trigger] sl[k]),
            forall|a: int, b: int|
                0 <= a < i && a < b < n ==> distinct_spellings(#[trigger] sl[a], #[trigger] sl[b]),
        decreases n - i,
    {
        let mut j: usize = i + 1;
        while j < n
            invariant
                n == ls.len() == sl.len(),
                sl == leaves_of(*s),
                i < n,
                i < j <= n,
                forall|k: int| 0 <= k < ls.len() ==> *ls@[k] == #[trigger] sl[k],
                forall|a: int, b: int|
                    0 <= a < i && a < b < n ==> distinct_spellings(#[trigger] sl[a], #[trigger] sl[b]),
                forall|b: int| i < b < j ==> distinct_spellings(sl[i as int], #[trigger] sl[b]),
            decreases n - j,
        {
            if !spellings_differ(ls[i], ls[j]) {
                assert(!distinct_spellings(sl[i as int], sl[j as int]));
                assert(!well_spelled(*s));
                return false;
            }
            j = j + 1;
        }
        i = i + 1;
    }
    true
}


fn leaf_kind_ok(l: &LeafSpec, v: &Value) -> (r: bool)
    ensures
        r == kind_ok(*l, *v),
{
    match v {
        Value::Flag(_) => !l.takes_value,
        Value::Text(_) => l.takes_value,
    }
}

/// Whether the configuration value has the shape and leaf kinds of the schema.
pub fn check_conforms(s: &FieldSpec, t: &Node<Value>) -> (r: bool)
    ensures
        r == conforms(*s, t@),
    decreases s,
{
    match (s, t) {
        (FieldSpec::Leaf(l), Node::Leaf(v)) => leaf_kind_ok(l, v),
        (FieldSpec::Nested(fs), Node::Group(g)) => {
            proof {
                assert(t@->Group_0.len() == g.len());
            }
            if fs.len() != g.len() {
                return false;
            }
            let mut i: usize = 0;
            while i < fs.len()
                invariant
                    i <= fs.len() == g.len(),
                    *s == FieldSpec::Nested(*fs),
                    *t == Node::Group(*g),
                    t@->Group_0.len() == g.len(),
                    forall|j: int| 0 <= j < i ==> conforms(#[trigger] fs[j], t@->Group_0[j]),
                decreases fs.len() - i,
            {
                proof {
                    assert(decreases_to!(*s => s->Nested_0));
                    assert(decreases_to!(s->Nested_0 => s->Nested_0[i as int]));
                    assert(t@->Group_0[i as int] == g[i as int]@);
                }
                if !check_conforms(&fs[i], &g[i]) {
                    return false;
                }
                i = i + 1;
            }
            true
        },
        (FieldSpec::Leaf(_), Node::Group(_)) => false,
        (FieldSpec::Nested(_), Node::Leaf(_)) => false,
    }
}

/// Whether the options value mirrors the schema, with leaves of its kinds.
pub fn check_mirrors(s: &FieldSpec, o: &OptNode<Value>) -> (r: bool)
    ensures
        r == mirrors(*s, o@),
    decreases s,
{
    match (s, o) {
        (FieldSpec::Leaf(l), OptNode::Leaf(v)) => match v {
            Some(x) => leaf_kind_ok(l, x),
            None => true,
        },
        (FieldSpec::Nested(fs), OptNode::Group(g)) => {
            proof {
                assert(o@->Group_0.len() == g.len());
            }
            if fs.len() != g.len() {
                return false;
            }
            let mut i: usize = 0;
            while i < fs.len()
                invariant
                    i <= fs.len() == g.len(),
                    *s == FieldSpec::Nested(*fs),
                    *o == OptNode::Group(*g),
                    o@->Group_0.len() == g.len(),
                    forall|j: int| 0 <= j < i ==> mirrors(#[trigger] fs[j], o@->Group_0[j]),
                decreases fs.len() - i,
            {
                proof {
                    assert(decreases_to!(*s => s->Nested_0));
                    assert(decreases_to!(s->Nested_0 => s->Nested_0[i as int]));
                    assert(o@->Group_0[i as int] == g[i as int]@);
                }
                if !check_mirrors(&fs[i], &g[i]) {
                    return false;
                }
                i = i + 1;
            }
            true
        },
        (FieldSpec::Leaf(_), OptNode::Group(_)) => false,
        (FieldSpec::Nested(_), OptNode::Leaf(_)) => false,
    }
}

} // verus!

use vstd::prelude::*;

use clap::builder::{Resettable, Str};
use clap::error::ErrorKind;
use clap::{Arg, ArgAction, Command};

use crate::schema::{
    collect_leaves, conforms, defaults, is_default, leaves_from, leaves_of, mirrors, offset, read_at,
    spelling_of, spellings_ok, text_view, well_spelled, FieldSpec, LeafSpec, Reading, Value,
};
use crate::tree::{merged, update, Node, OptNode, Tree};

verus! {

broadcast use vstd::std_specs::vec::axiom_vec_index_decreases, vstd::seq::axiom_seq_index_decreases;

#[verifier::external_type_specification]
#[verifier::external_body]
pub struct ExErrorKind(ErrorKind);

/// A command line that could not be parsed: the parser's kind of error, its
/// rendered message, and the exit code it asks for (0 where help was asked
/// for).
#[derive(Debug)]
pub struct CliError {
    pub kind: ErrorKind,
    pub message: String,
    pub exit_code: i32,
}

/// The spellings of a list of leaves, as plain values.
pub open spec fn spellings(ls: Seq<&LeafSpec>) -> Seq<(Seq<char>, Option<char>, Option<Seq<char>>, bool)> {
    ls.map_values(|l: &LeafSpec| spelling_of(*l))
}

/// Command-line tokens as plain values.
pub open spec fn token_views(args: Seq<String>) -> Seq<Seq<char>> {
    args.map_values(|a: String| a@)
}

/// What was read back for each leaf, as plain values.
pub open spec fn reading_views(vals: Seq<(Option<bool>, Option<String>)>) -> Seq<Reading> {
    vals.map_values(|v: (Option<bool>, Option<String>)| (v.0, text_view(v.1)))
}

/// Whether the parser accepts the tokens, for a command of that name with one
/// argument per leaf spelling.
pub uninterp spec fn cli_accepts(
    name: Seq<char>,
    spellings: Seq<(Seq<char>, Option<char>, Option<Seq<char>>, bool)>,
    tokens: Seq<Seq<char>>,
) -> bool;

/// What the parser stores for each leaf spelling when it accepts the tokens.
pub uninterp spec fn cli_values(
    name: Seq<char>,
    spellings: Seq<(Seq<char>, Option<char>, Option<Seq<char>>, bool)>,
    tokens: Seq<Seq<char>>,
) -> Seq<Reading>;

/// Relies on clap: `Command::new(name)` with one `Arg` per leaf (`Arg::new`,
/// `short`, `long`, and `action` `SetTrue` for a flag, `Set` for an option),
/// parsed by `Command::try_get_matches_from`, and each leaf read back with
/// `ArgMatches::try_get_one` as a boolean and as a text. The outcome depends
/// on the name, the spellings and the tokens alone. Debug assertions in clap
/// reject spellings that `spellings_ok` leaves out.
#[verifier::external_body]
fn run_parser(name: &String, leaves: &Vec<&LeafSpec>, args: &Vec<String>) -> (r: Result<
    Vec<(Option<bool>, Option<String>)>,
    CliError,
>)
    requires
        spellings_ok(leaves@.map_values(|l: &LeafSpec| *l)),
    ensures
        r is Ok <==> cli_accepts(name@, spellings(leaves@), token_views(args@)),
        r is Ok ==> r->Ok_0@.len() == leaves@.len(),
        r is Ok ==> reading_views(r->Ok_0@) == cli_values(
            name@,
            spellings(leaves@),
            token_views(args@),
        ),
{
    let m = Command::new(name.clone())
        .args(leaves.iter().map(|l|
            Arg::new(l.id.clone())
                .short(l.short)
                .long(Resettable::from(l.long.clone().map(Str::from)))
                .action(if l.takes_value { ArgAction::Set } else { ArgAction::SetTrue })))
        .try_get_matches_from(args)
        .map_err(|e| CliError { kind: e.kind(), message: e.to_string(), exit_code: e.exit_code() })?;
    Ok(leaves.iter().map(|l| (
        m.try_get_one::<bool>(&l.id).unwrap_or(None).copied(),
        m.try_get_one::<String>(&l.id).unwrap_or(None).cloned(),
    )).collect())
}

/// The leaf's value as the command line gave it, or absence: a flag is
/// present only when it was given.
pub fn leaf_option(l: &LeafSpec, flag: Option<bool>, text: Option<String>) -> (r: Option<Value>)
    ensures
        l.takes_value ==> r == (match text {
            Some(t) => Some(Value::Text(t)),
            None => None,
        }),
        !l.takes_value ==> r == (if flag == Some(true) {
            Some(Value::Flag(true))
        } else {
            None
        }),
{
    if l.takes_value {
        match text {
            Some(t) => Some(Value::Text(t)),
            None => None,
        }
    } else {
        match flag {
            Some(true) => Some(Value::Flag(true)),
            _ => None,
        }
    }
}

/// Builds the options value that the schema mirrors from what was read back
/// for its leaves, in declaration order from index `start`; returns it with
/// the index after its last leaf.
fn read_options(s: &FieldSpec, vals: &Vec<(Option<bool>, Option<String>)>, start: usize) -> (r: (
    OptNode<Value>,
    usize,
))
    requires
        start + leaves_of(*s).len() <= vals.len(),
    ensures
        r.1 == start + leaves_of(*s).len(),
        mirrors(*s, r.0@),
        read_at(*s, r.0@, reading_views(vals@), start as int),
    decreases s,
{
    match s {
        FieldSpec::Leaf(l) => {
            let flag = vals[start].0;
            let text = match &vals[start].1 {
                Some(t) => Some(t.clone()),
                None => None,
            };
            let o = leaf_option(l, flag, text);
            (OptNode::Leaf(o), start + 1)
        },
        FieldSpec::Nested(fs) => {
            let mut g: Vec<OptNode<Value>> = Vec::new();
            let mut pos: usize = start;
            let mut i: usize = 0;
            proof {
                assert(leaves_of(*s) == leaves_from(*fs, 0));
            }
            while i < fs.len()
                invariant
                    i <= fs.len(),
                    *s == FieldSpec::Nested(*fs),
                    leaves_of(*s) == leaves_from(*fs, 0),
                    start + leaves_of(*s).len() <= vals.len(),
                    pos == start + offset(*fs, i as int),
                    offset(*fs, i as int) + leaves_from(*fs, i as int).len() == leaves_from(*fs, 0).len(),
                    g.len() == i,
                    forall|j: int| 0 <= j < i ==> mirrors(#[trigger] fs[j], g[j]@),
                    forall|j: int|
                        0 <= j < i ==> read_at(
                            #[trigger] fs[j],
                            g[j]@,
                            reading_views(vals@),
                            start + offset(*fs, j),
                        ),
                decreases fs.len() - i,
            {
                proof {
                    assert(decreases_to!(*s => s->Nested_0));
                    assert(decreases_to!(s->Nested_0 => s->Nested_0[i as int]));
                    assert(leaves_from(*fs, i as int) == leaves_of(fs[i as int]) + leaves_from(
                        *fs,
                        i + 1,
                    ));
                }
                let (o, next) = read_options(&fs[i], vals, pos);
                g.push(o);
                pos = next;
                i = i + 1;
            }
            proof {
                assert(leaves_from(*fs, i as int) =~= Seq::empty());
            }
            let r = OptNode::Group(g);
            proof {
                assert(r@->Group_0.len() == g.len());
                assert forall|j: int| 0 <= j < fs.len() implies mirrors(
                    #[trigger] fs[j],
                    r@->Group_0[j],
                ) && read_at(fs[j], r@->Group_0[j], reading_views(vals@), start + offset(*fs, j)) by {
                    assert(r@->Group_0[j] == g[j]@);
                }
            }
            (r, pos)
        },
    }
}

/// The spellings of the schema's leaves, in declaration order.
pub open spec fn leaf_spellings(s: FieldSpec) -> Seq<(Seq<char>, Option<char>, Option<Seq<char>>, bool)> {
    leaves_of(s).map_values(|l: LeafSpec| spelling_of(l))
}

/// Parses command-line tokens, the first of which names the program, into the
/// options value that the schema mirrors. Every leaf, nested ones included, is
/// declared in one namespace under its own spellings. A nested group is always
/// there in the result, its leaves present only where the command line gave
/// them.
pub fn parse_options(s: &FieldSpec, name: &String, args: &Vec<String>) -> (r: Result<
    OptNode<Value>,
    CliError,
>)
    requires
        well_spelled(*s),
    ensures
        r is Ok <==> cli_accepts(name@, leaf_spellings(*s), token_views(args@)),
        r is Ok ==> mirrors(*s, r->Ok_0@),
        r is Ok ==> read_at(*s, r->Ok_0@, cli_values(name@, leaf_spellings(*s), token_views(args@)), 0),
{
    let mut leaves: Vec<&LeafSpec> = Vec::new();
    collect_leaves(s, &mut leaves);
    proof {
        assert(leaves@.map_values(|l: &LeafSpec| *l) =~= leaves_of(*s));
        assert(spellings(leaves@) =~= leaf_spellings(*s));
    }
    match run_parser(name, &leaves, args) {
        Ok(vals) => {
            let (o, _) = read_options(s, &vals, 0);
            Ok(o)
        },
        Err(e) => Err(e),
    }
}

/// Merges an options value into a configuration value of the same schema.
pub fn merge_options(s: &FieldSpec, base: Node<Value>, opts: OptNode<Value>) -> (r: Node<Value>)
    requires
        conforms(*s, base@),
        mirrors(*s, opts@),
    ensures
        r@ == merged(base@, opts@),
        conforms(*s, r@),
{
    proof {
        crate::schema::lemma_mirror_fits(*s, base@, opts@);
    }
    let mut b = base;
    update(&mut b, opts);
    b
}

/// The configuration value of the schema's defaults with `opts` merged into it.
pub fn from_options(s: &FieldSpec, opts: OptNode<Value>) -> (r: Node<Value>)
    requires
        mirrors(*s, opts@),
    ensures
        exists|d: Tree<Value>| is_default(*s, d) && r@ == merged(d, opts@),
        conforms(*s, r@),
{
    let d = defaults(s);
    let ghost dv = d@;
    let r = merge_options(s, d, opts);
    assert(is_default(*s, dv) && r@ == merged(dv, opts@));
    r
}

/// Parses the command line and merges it into the schema's defaults.
pub fn from_args(s: &FieldSpec, name: &String, args: &Vec<String>) -> (r: Result<
    Node<Value>,
    CliError,
>)
    requires
        well_spelled(*s),
    ensures
        r is Ok <==> cli_accepts(name@, leaf_spellings(*s), token_views(args@)),
        r is Ok ==> conforms(*s, r->Ok_0@),
        r is Ok ==> exists|d: Tree<Value>, o: OptNode<Value>|
            is_default(*s, d) && mirrors(*s, o@) && read_at(
                *s,
                o@,
                cli_values(name@, leaf_spellings(*s), token_views(args@)),
                0,
            ) && r->Ok_0@ == merged(d, o@),
{
    match parse_options(s, name, args) {
        Ok(o) => {
            let ghost og = o;
            let r = from_options(s, o);
            assert(mirrors(*s, og@));
            assert(read_at(*s, og@, cli_values(name@, leaf_spellings(*s), token_views(args@)), 0));
            Ok(r)
        },
        Err(e) => Err(e),
    }
}

} // verus!

//! Description of a command-line interface as a tree of arguments.
//!
//! The submodules carry the current form of the engine; the items in this
//! module are its earlier, flat form, in which every composite argument —
//! including a command list — is one variant of [`ArgType`], and the join
//! configurations are looked up in a map keyed by the variety of node.

pub mod arg;
pub mod command;
pub mod formatter;
pub mod value;

use std::collections::HashMap;

use crate::formatter::Formatter;
use self::formatter::{opt_str, option_views, prefixed_lines, start_with};
use self::value::{padded_name, Value};

use vstd::prelude::*;

verus! {

broadcast use vstd::std_specs::hash::group_hash_axioms;

/// A record of arguments: all members together, in order.
#[derive(Debug, PartialEq)]
pub struct ArgGroup(pub Vec<Arg>);

/// A tagged union of arguments: exactly one of the alternatives.
#[derive(Debug, PartialEq)]
pub struct Choices(pub Vec<Arg>);

/// A list of commands, displayed within braces in a summary.
#[derive(Debug, PartialEq)]
pub struct Commands(pub Vec<Arg>);

/// The shape of an argument: a leaf value or one of three composites.
#[derive(Debug, PartialEq)]
pub enum ArgType {
    /// default type holds no additional value
    Value,
    /// enumeration argument type
    Choices(Choices),
    /// struct argument type
    Group(ArgGroup),
    /// enumeration, displayed within command list
    Commands(Commands),
}

/// One node of the argument tree: its label pair, its shape, and its
/// cached depth, computed once at construction.
#[derive(Debug, PartialEq)]
pub struct Arg {
    /// Argument field name
    pub name: &'static str,
    /// description associated to the argument and displayed beside its name
    pub description: Option<&'static str>,
    /// type of argument determining when and what to display
    pub arg_type: ArgType,
    pub max_depth: usize,
}

/// The key under which each variety of node finds its join configuration.
pub open spec fn type_key(t: ArgType) -> u8 {
    match t {
        ArgType::Value => 0,
        ArgType::Choices(_) => 1,
        ArgType::Group(_) => 2,
        ArgType::Commands(_) => 3,
    }
}

/// The children a composite holds; a leaf has none.
pub open spec fn spec_get_args(t: ArgType) -> Option<Seq<Arg>> {
    match t {
        ArgType::Value => None,
        ArgType::Choices(c) => Some(c.0@),
        ArgType::Group(g) => Some(g.0@),
        ArgType::Commands(c) => Some(c.0@),
    }
}

/// The deepest cached depth among `args`, or one when there is none.
pub open spec fn seq_cached_depth(args: Seq<Arg>) -> nat
    decreases args.len(),
{
    if args.len() == 0 {
        1
    } else if args.len() == 1 {
        args.last().max_depth as nat
    } else {
        let r = seq_cached_depth(args.drop_last());
        let d = args.last().max_depth as nat;
        if r >= d {
            r
        } else {
            d
        }
    }
}

/// The deepest cached depth among the children of `t`, or one for a leaf.
pub open spec fn inner_depth(t: ArgType) -> nat {
    match spec_get_args(t) {
        Some(args) => seq_cached_depth(args),
        None => 1,
    }
}

pub open spec fn seq_wf(args: Seq<Arg>) -> bool
    decreases args,
{
    if args.len() == 0 {
        true
    } else {
        seq_wf(args.drop_last()) && args.last().wf()
    }
}

/// Whether every cached depth below `t` is the one construction assigns.
pub open spec fn type_wf(t: ArgType) -> bool
    decreases t,
{
    match t {
        ArgType::Value => true,
        ArgType::Choices(c) => seq_wf(c.0@),
        ArgType::Group(g) => seq_wf(g.0@),
        ArgType::Commands(c) => seq_wf(c.0@),
    }
}

impl Arg {
    /// Whether the node's cached depth is the one its construction
    /// assigns: one more than its children's deepest, or one for a bare
    /// leaf made without a type.
    pub open spec fn wf(self) -> bool
        decreases self,
    {
        type_wf(self.arg_type) && (self.max_depth == inner_depth(self.arg_type) + 1 || (
        self.arg_type is Value && self.max_depth == 1))
    }
}

pub proof fn lemma_seq_wf_index(args: Seq<Arg>)
    ensures
        seq_wf(args) <==> (forall|i: int| 0 <= i < args.len() ==> #[trigger] args[i].wf()),
    decreases args.len(),
{
    if args.len() > 0 {
        lemma_seq_wf_index(args.drop_last());
        if seq_wf(args) {
            assert forall|i: int| 0 <= i < args.len() implies #[trigger] args[i].wf() by {
                if i < args.len() - 1 {
                    assert(args.drop_last()[i] == args[i]);
                } else {
                    assert(args.last() == args[i]);
                }
            }
        }
        if forall|i: int| 0 <= i < args.len() ==> #[trigger] args[i].wf() {
            assert forall|i: int|
                0 <= i < args.drop_last().len() implies #[trigger] args.drop_last()[i].wf() by {
                assert(args.drop_last()[i] == args[i]);
                assert(args[i].wf());
            }
            assert(args[args.len() - 1].wf());
            assert(args.last() == args[args.len() - 1]);
        }
    }
}

/// The join configuration registered for `key`, or the neutral one.
pub open spec fn fmt_for(m: Map<u8, Formatter<'static>>, key: u8) -> Formatter<'static> {
    if m.contains_key(key) {
        m[key]
    } else {
        Formatter { very_start: None, very_end: None, start: None, end: None, middle: None }
    }
}

/// Whether an argument is shown as a bare leaf in the summary: a plain
/// value always, and a union or command list whose depth stays within two.
pub open spec fn spec_can_be_explained(a: Arg) -> bool {
    (a.arg_type is Value || a.arg_type is Choices || a.arg_type is Commands) && a.max_depth <= 2
}

/// The summaries of each child, in order, ready for joining.
pub open spec fn seq_summaries(args: Seq<Arg>, m: Map<u8, Formatter<'static>>) -> Seq<
    Option<Seq<char>>,
>
    decreases args,
{
    if args.len() == 0 {
        Seq::empty()
    } else {
        seq_summaries(args.drop_last(), m).push(Some(arg_summary(args.last(), m)))
    }
}

/// The one-line summary of a composite: its children's summaries joined
/// with the configuration registered for its variety; a leaf has none.
pub open spec fn type_summary(t: ArgType, m: Map<u8, Formatter<'static>>) -> Option<Seq<char>>
    decreases t,
{
    match spec_get_args(t) {
        None => None,
        Some(args) => Some(fmt_for(m, type_key(t)).formatted(seq_summaries(args, m))),
    }
}

/// The one-line summary of an argument: its bare name while it can be
/// explained in the detailed view, its expanded children otherwise.
pub open spec fn arg_summary(a: Arg, m: Map<u8, Formatter<'static>>) -> Seq<char>
    decreases a,
{
    if spec_can_be_explained(a) {
        a.name@
    } else {
        match type_summary(a.arg_type, m) {
            Some(s) => s,
            None => Seq::empty(),
        }
    }
}

/// The labelled line of an argument: its name and, when there is one, its
/// description after the eight-column padding.
pub open spec fn spec_label(a: Arg) -> Seq<char> {
    match a.description {
        Some(d) => padded_name(a.name@) + d@,
        None => a.name@,
    }
}

/// The details of each child, in order, ready for joining; a child that
/// renders to nothing stays `None` and is filtered by the join.
pub open spec fn seq_details(args: Seq<Arg>, m: Map<u8, Formatter<'static>>) -> Seq<
    Option<Seq<char>>,
>
    decreases args,
{
    if args.len() == 0 {
        Seq::empty()
    } else {
        seq_details(args.drop_last(), m).push(arg_details(args.last(), m))
    }
}

/// The detailed listing of a composite: its children's details joined with
/// the configuration registered for its variety; a leaf has none.
pub open spec fn type_details(t: ArgType, m: Map<u8, Formatter<'static>>) -> Option<Seq<char>>
    decreases t,
{
    match spec_get_args(t) {
        None => None,
        Some(args) => Some(fmt_for(m, type_key(t)).formatted(seq_details(args, m))),
    }
}

/// The detailed listing of an argument.  Within depth two it is its
/// labelled line — followed, for a composite, by the children's details
/// under a two-column indent; deeper, the children's details stand alone.
pub open spec fn arg_details(a: Arg, m: Map<u8, Formatter<'static>>) -> Option<Seq<char>>
    decreases a,
{
    if a.max_depth <= 2 {
        if a.arg_type is Value {
            Some(spec_label(a) + seq!['\n'])
        } else {
            match type_details(a.arg_type, m) {
                Some(d) => Some(spec_label(a) + seq!['\n'] + prefixed_lines(d, seq![' ', ' '])),
                None => None,
            }
        }
    } else {
        type_details(a.arg_type, m)
    }
}

proof fn lemma_seq_summaries_index(args: Seq<Arg>, m: Map<u8, Formatter<'static>>)
    ensures
        seq_summaries(args, m).len() == args.len(),
        forall|i: int|
            0 <= i < args.len() ==> seq_summaries(args, m)[i] == Some(
                arg_summary(#[trigger] args[i], m),
            ),
    decreases args.len(),
{
    if args.len() > 0 {
        lemma_seq_summaries_index(args.drop_last(), m);
        assert forall|i: int|
            0 <= i < args.len() implies seq_summaries(args, m)[i] == Some(
            arg_summary(#[trigger] args[i], m),
        ) by {
            if i < args.len() - 1 {
                assert(args.drop_last()[i] == args[i]);
            } else {
                assert(args.last() == args[i]);
            }
        }
    }
}

proof fn lemma_seq_details_index(args: Seq<Arg>, m: Map<u8, Formatter<'static>>)
    ensures
        seq_details(args, m).len() == args.len(),
        forall|i: int|
            0 <= i < args.len() ==> seq_details(args, m)[i] == arg_details(
                #[trigger] args[i],
                m,
            ),
    decreases args.len(),
{
    if args.len() > 0 {
        lemma_seq_details_index(args.drop_last(), m);
        assert forall|i: int|
            0 <= i < args.len() implies seq_details(args, m)[i] == arg_details(
            #[trigger] args[i],
            m,
        ) by {
            if i < args.len() - 1 {
                assert(args.drop_last()[i] == args[i]);
            } else {
                assert(args.last() == args[i]);
            }
        }
    }
}

/// The deepest cached depth in `args`, or one when the list is empty.
fn max_cached_depth(args: &Vec<Arg>) -> (r: usize)
    ensures
        r == seq_cached_depth(args@),
{
    if args.len() == 0 {
        return 1;
    }
    proof {
        assert(args@.take(1).last() == args@[0]);
        assert(args@.take(1).len() == 1);
    }
    let mut m: usize = args[0].max_depth;
    let mut i: usize = 1;
    while i < args.len()
        invariant
            1 <= i <= args@.len(),
            m == seq_cached_depth(args@.take(i as int)),
        decreases args@.len() - i,
    {
        proof {
            assert(args@.take(i + 1).drop_last() =~= args@.take(i as int));
            assert(args@.take(i + 1).last() == args@[i as int]);
            assert(args@.take(i + 1).len() == i + 1);
        }
        if args[i].max_depth > m {
            m = args[i].max_depth;
        }
        i += 1;
    }
    proof {
        assert(args@.take(args@.len() as int) =~= args@);
    }
    m
}

/// Looks up the join configuration for `key`, falling back to the neutral
/// one.
fn formatter_for(fmts: &HashMap<u8, Formatter<'static>>, key: u8) -> (f: Formatter<'static>)
    ensures
        f == fmt_for(fmts@, key),
{
    match fmts.get(&key) {
        Some(f) => *f,
        None => Formatter::default(),
    }
}

impl ArgType {
    /// The key under which this variety of node finds its configuration.
    pub fn key(&self) -> (r: u8)
        ensures
            r == type_key(*self),
    {
        match self {
            ArgType::Value => 0,
            ArgType::Choices(_) => 1,
            ArgType::Group(_) => 2,
            ArgType::Commands(_) => 3,
        }
    }

    /// Gets the inner arguments Choices, Group and Commands hold;
    /// a leaf yields none.
    fn get_args(&self) -> (r: Option<&Vec<Arg>>)
        ensures
            (match r {
                Some(v) => spec_get_args(*self) == Some(v@),
                None => spec_get_args(*self) is None && *self is Value,
            }),
    {
        match self {
            ArgType::Choices(Choices(args)) => Some(args),
            ArgType::Group(ArgGroup(args)) => Some(args),
            ArgType::Commands(Commands(args)) => Some(args),
            ArgType::Value => None,
        }
    }

    /// Get the maximum depth of all the arguments it contains.
    fn max_depth(&self) -> (r: usize)
        ensures
            r == inner_depth(*self),
    {
        match self.get_args() {
            Some(args) => max_cached_depth(args),
            None => 1,
        }
    }

    /// Tries to give a one-line description of all the arguments the node
    /// contains, joined with the configuration registered for it; a leaf
    /// has nothing to describe.
    pub fn summarize(&self, fmts: &HashMap<u8, Formatter<'static>>) -> (r: Option<String>)
        requires
            type_wf(*self),
        ensures
            (match type_summary(*self, fmts@) {
                Some(v) => r matches Some(s) && s@ == v,
                None => r is None,
            }),
        decreases *self, 1int,
    {
        let key = self.key();
        match self.get_args() {
            None => None,
            Some(args) => {
                proof {
                    lemma_args_of_type(*self, args@);
                }
                let parts = render_summaries(args, fmts);
                let f = formatter_for(fmts, key);
                let out = f.fmt_rendered(&parts);
                proof {
                    lemma_seq_summaries_index(args@, fmts@);
                    assert forall|k: int|
                        0 <= k < args@.len() implies option_views(parts@)[k] == seq_summaries(
                        args@,
                        fmts@,
                    )[k] by {
                        assert(option_views(parts@)[k] == Some(arg_summary(args@[k], fmts@)));
                        assert(seq_summaries(args@, fmts@)[k] == Some(arg_summary(args@[k], fmts@)));
                    }
                    assert(option_views(parts@) =~= seq_summaries(args@, fmts@));
                }
                Some(out)
            },
        }
    }

    /// Gives all argument details the node contains, joined with the
    /// configuration registered for it; a leaf has nothing to describe.
    pub fn details(&self, fmts: &HashMap<u8, Formatter<'static>>) -> (r: Option<String>)
        requires
            type_wf(*self),
        ensures
            (match type_details(*self, fmts@) {
                Some(v) => r matches Some(s) && s@ == v,
                None => r is None,
            }),
        decreases *self, 1int,
    {
        let key = self.key();
        match self.get_args() {
            None => None,
            Some(args) => {
                proof {
                    lemma_args_of_type(*self, args@);
                }
                let parts = render_details(args, fmts);
                let f = formatter_for(fmts, key);
                let out = f.fmt_rendered(&parts);
                proof {
                    lemma_seq_details_index(args@, fmts@);
                    assert forall|k: int|
                        0 <= k < args@.len() implies option_views(parts@)[k] == seq_details(
                        args@,
                        fmts@,
                    )[k] by {
                        assert(option_views(parts@)[k] == arg_details(args@[k], fmts@));
                        assert(seq_details(args@, fmts@)[k] == arg_details(args@[k], fmts@));
                    }
                    assert(option_views(parts@) =~= seq_details(args@, fmts@));
                }
                Some(out)
            },
        }
    }
}

/// A composite is strictly larger than the sequence of its children, and
/// its well-formedness is theirs.
proof fn lemma_args_of_type(t: ArgType, args: Seq<Arg>)
    requires
        spec_get_args(t) == Some(args),
        type_wf(t),
    ensures
        decreases_to!(t => args),
        seq_wf(args),
{
    match t {
        ArgType::Value => {},
        ArgType::Choices(c) => {
            assert(decreases_to!(t => t->Choices_0));
            assert(decreases_to!(t->Choices_0 => t->Choices_0.0));
            assert(decreases_to!(t->Choices_0.0 => t->Choices_0.0@));
            assert(t->Choices_0.0@ == args);
        },
        ArgType::Group(g) => {
            assert(decreases_to!(t => t->Group_0));
            assert(decreases_to!(t->Group_0 => t->Group_0.0));
            assert(decreases_to!(t->Group_0.0 => t->Group_0.0@));
            assert(t->Group_0.0@ == args);
        },
        ArgType::Commands(c) => {
            assert(decreases_to!(t => t->Commands_0));
            assert(decreases_to!(t->Commands_0 => t->Commands_0.0));
            assert(decreases_to!(t->Commands_0.0 => t->Commands_0.0@));
            assert(t->Commands_0.0@ == args);
        },
    }
}

/// The summary of each child, in order, ready for joining.
fn render_summaries(args: &Vec<Arg>, fmts: &HashMap<u8, Formatter<'static>>) -> (parts: Vec<
    Option<String>,
>)
    requires
        seq_wf(args@),
    ensures
        parts@.len() == args@.len(),
        forall|i: int|
            0 <= i < args@.len() ==> option_views(parts@)[i] == Some(
                arg_summary(#[trigger] args@[i], fmts@),
            ),
    decreases args@, 0int,
{
    let mut parts: Vec<Option<String>> = Vec::new();
    let mut i: usize = 0;
    while i < args.len()
        invariant
            seq_wf(args@),
            i <= args@.len(),
            parts@.len() == i,
            forall|k: int|
                0 <= k < i ==> option_views(parts@)[k] == Some(
                    arg_summary(#[trigger] args@[k], fmts@),
                ),
        decreases args@.len() - i,
    {
        proof {
            lemma_seq_wf_index(args@);
            assert(args@[i as int].wf());
            assert(decreases_to!(args@ => args@[i as int]));
        }
        let s = args[i].summarize(fmts);
        parts.push(Some(s));
        i += 1;
    }
    parts
}

/// The details of each child, in order, ready for joining.
fn render_details(args: &Vec<Arg>, fmts: &HashMap<u8, Formatter<'static>>) -> (parts: Vec<
    Option<String>,
>)
    requires
        seq_wf(args@),
    ensures
        parts@.len() == args@.len(),
        forall|i: int|
            0 <= i < args@.len() ==> option_views(parts@)[i] == arg_details(
                #[trigger] args@[i],
                fmts@,
            ),
    decreases args@, 0int,
{
    let mut parts: Vec<Option<String>> = Vec::new();
    let mut i: usize = 0;
    while i < args.len()
        invariant
            seq_wf(args@),
            i <= args@.len(),
            parts@.len() == i,
            forall|k: int|
                0 <= k < i ==> option_views(parts@)[k] == arg_details(
                    #[trigger] args@[k],
                    fmts@,
                ),
        decreases args@.len() - i,
    {
        proof {
            lemma_seq_wf_index(args@);
            assert(args@[i as int].wf());
            assert(decreases_to!(args@ => args@[i as int]));
        }
        let s = args[i].details(fmts);
        parts.push(s);
        i += 1;
    }
    parts
}

impl Arg {
    /// Creates an argument with its inner type; the cached depth is one
    /// more than the children's deepest.
    pub fn with_type(name: &'static str, description: Option<&'static str>, arg_type: ArgType) -> (r:
        Arg)
        requires
            type_wf(arg_type),
            inner_depth(arg_type) < usize::MAX,
        ensures
            r.wf(),
            r.name == name,
            r.description == description,
            r.arg_type == arg_type,
            r.max_depth == inner_depth(arg_type) + 1,
    {
        let max_depth = arg_type.max_depth() + 1;
        Arg { name, description, arg_type, max_depth }
    }

    /// The default constructor: a single simple value.
    pub fn new(name: &'static str, description: Option<&'static str>) -> (r: Arg)
        ensures
            r.wf(),
            r.name == name,
            r.description == description,
            r.arg_type == ArgType::Value,
            r.max_depth == 1,
    {
        Arg { name, description, arg_type: ArgType::Value, max_depth: 1 }
    }

    /// Whether the argument is shown as a bare leaf in the summary.
    fn can_be_explained(&self) -> (r: bool)
        ensures
            r == spec_can_be_explained(*self),
    {
        match &self.arg_type {
            ArgType::Group(_) => false,
            _ => self.max_depth <= 2,
        }
    }

    /// The labelled line: the name and, when there is one, the description
    /// after the eight-column padding.
    fn label(&self) -> (r: String)
        ensures
            r@ == spec_label(*self),
    {
        let value = Value { name: self.name, description: self.description };
        value.display_alternate()
    }

    /// Summarize argument order and name, to be detailed afterwards.
    pub fn summarize(&self, fmts: &HashMap<u8, Formatter<'static>>) -> (r: String)
        requires
            self.wf(),
        ensures
            r@ == arg_summary(*self, fmts@),
        decreases *self, 2int,
    {
        if self.can_be_explained() {
            self.name.to_owned()
        } else {
            proof {
                assert(decreases_to!(*self => (*self).arg_type));
            }
            match self.arg_type.summarize(fmts) {
                Some(s) => s,
                None => {
                    proof {
                        assert(false);
                    }
                    String::new()
                },
            }
        }
    }

    /// The argument's detailed lines, when it has any to show.
    pub fn details(&self, fmts: &HashMap<u8, Formatter<'static>>) -> (r: Option<String>)
        requires
            self.wf(),
        ensures
            (match arg_details(*self, fmts@) {
                Some(v) => r matches Some(s) && s@ == v,
                None => r is None,
            }),
        decreases *self, 2int,
    {
        proof {
            assert(decreases_to!(*self => (*self).arg_type));
        }
        if self.max_depth <= 2 {
            let line = self.label();
            match &self.arg_type {
                ArgType::Value => {
                    let mut r = line;
                    r.append("\n");
                    proof {
                        reveal_strlit("\n");
                        assert(r@ =~= spec_label(*self) + seq!['\n']);
                    }
                    Some(r)
                },
                _ => {
                    match self.arg_type.details(fmts) {
                        Some(d) => {
                            let mut r = line;
                            r.append("\n");
                            r.append(start_with(d, "  ").as_str());
                            proof {
                                reveal_strlit("\n");
                                reveal_strlit("  ");
                                assert(("  ")@ =~= seq![' ', ' ']);
                                assert(arg_details(*self, fmts@) matches Some(v) && r@ =~= v);
                            }
                            Some(r)
                        },
                        None => None,
                    }
                },
            }
        } else {
            self.arg_type.details(fmts)
        }
    }
}

/// Whether `m` is the built-in summary configuration: groups space-joined
/// in `< >` around each member, choices pipe-joined inside one `< >`, and
/// command lists pipe-joined inside `{ }`.
pub open spec fn is_default_summary_map(m: Map<u8, Formatter<'static>>) -> bool {
    &&& m.contains_key(1)
    &&& opt_str(m[1].very_start) == ("<")@
    &&& opt_str(m[1].very_end) == (">")@
    &&& opt_str(m[1].middle) == ("|")@
    &&& opt_str(m[1].start).len() == 0
    &&& opt_str(m[1].end).len() == 0
    &&& m.contains_key(2)
    &&& opt_str(m[2].very_start).len() == 0
    &&& opt_str(m[2].very_end).len() == 0
    &&& opt_str(m[2].middle) == (" ")@
    &&& opt_str(m[2].start) == ("<")@
    &&& opt_str(m[2].end) == (">")@
    &&& m.contains_key(3)
    &&& opt_str(m[3].very_start) == ("{")@
    &&& opt_str(m[3].very_end) == ("}")@
    &&& opt_str(m[3].middle) == ("|")@
    &&& opt_str(m[3].start).len() == 0
    &&& opt_str(m[3].end).len() == 0
}

/// Whether `m` is the built-in details configuration: choices bulleted
/// with `- `, everything else joined plainly.
pub open spec fn is_default_details_map(m: Map<u8, Formatter<'static>>) -> bool {
    &&& m.contains_key(1)
    &&& opt_str(m[1].very_start).len() == 0
    &&& opt_str(m[1].very_end).len() == 0
    &&& opt_str(m[1].middle).len() == 0
    &&& opt_str(m[1].start) == ("- ")@
    &&& opt_str(m[1].end).len() == 0
    &&& !m.contains_key(2)
    &&& !m.contains_key(3)
}

/// The built-in summary configurations, by node variety.
pub fn default_summary_formatters() -> (r: HashMap<u8, Formatter<'static>>)
    ensures
        is_default_summary_map(r@),
{
    let mut m: HashMap<u8, Formatter<'static>> = HashMap::new();
    m.insert(
        2,
        Formatter {
            middle: Some(" "),
            start: Some("<"),
            end: Some(">"),
            very_start: None,
            very_end: None,
        },
    );
    m.insert(
        1,
        Formatter {
            very_start: Some("<"),
            very_end: Some(">"),
            middle: Some("|"),
            start: None,
            end: None,
        },
    );
    m.insert(
        3,
        Formatter {
            very_start: Some("{"),
            very_end: Some("}"),
            middle: Some("|"),
            start: None,
            end: None,
        },
    );
    m
}

/// The built-in details configurations, by node variety.
pub fn default_details_formatters() -> (r: HashMap<u8, Formatter<'static>>)
    ensures
        is_default_details_map(r@),
{
    let mut m: HashMap<u8, Formatter<'static>> = HashMap::new();
    m.insert(
        1,
        Formatter { start: Some("- "), end: None, middle: None, very_start: None, very_end: None },
    );
    m
}

/// Provides a method returning the object as a list of displayable
/// arguments: choices for a tagged union, a group for a record.
pub trait AsArg {
    /// Return either choices for an enum or a group for a struct.
    fn arguments() -> (r: ArgType)
        ensures
            type_wf(r),
            !(r is Value),
    ;
}

/// What a summary that must exist unwraps to.
pub open spec fn unwrap_or_empty(o: Option<Seq<char>>) -> Seq<char> {
    match o {
        Some(s) => s,
        None => Seq::empty(),
    }
}

/// The usage line of a described command: its name, its argument summary,
/// its command summary, and a trailing ellipsis.
pub open spec fn spec_usage(
    n: Seq<char>,
    t: ArgType,
    c: Commands,
    m: Map<u8, Formatter<'static>>,
) -> Seq<char> {
    n + (" ")@ + unwrap_or_empty(type_summary(t, m)) + (" ")@ + unwrap_or_empty(
        type_summary(ArgType::Commands(c), m),
    ) + (" ...")@
}

/// The help text of a described command: its one-line summary, its usage,
/// and the indented argument and command listings.
pub open spec fn spec_help(
    s: Seq<char>,
    u: Seq<char>,
    t: ArgType,
    c: Commands,
    m: Map<u8, Formatter<'static>>,
) -> Seq<char> {
    ("\n")@ + s + ("\n\nUsage: ")@ + u + ("\n\nArguments:\n")@ + prefixed_lines(
        unwrap_or_empty(type_details(t, m)),
        seq![' ', ' '],
    ) + ("\nCommands:\n")@ + prefixed_lines(
        unwrap_or_empty(type_details(ArgType::Commands(c), m)),
        seq![' ', ' '],
    ) + ("\n")@
}

/// Provides helper functions to describe a command.
pub trait AsCommand: AsArg {
    fn name() -> &'static str;

    fn commands() -> (r: Commands)
        ensures
            seq_wf(r.0@),
    ;

    /// Summarizes expected types and/or values.
    fn summary() -> &'static str;

    /// The usage line, rendered with the built-in summary configurations.
    fn usage() -> (r: String)
        ensures
            exists|n: &'static str, t: ArgType, c: Commands, m: Map<u8, Formatter<'static>>|
                {
                    &&& #[trigger] call_ensures(Self::name, (), n)
                    &&& #[trigger] call_ensures(Self::arguments, (), t)
                    &&& #[trigger] call_ensures(Self::commands, (), c)
                    &&& #[trigger] is_default_summary_map(m)
                    &&& r@ == spec_usage(n@, t, c, m)
                },
    {
        let n = Self::name();
        let t = Self::arguments();
        let c = Self::commands();
        let fmts = default_summary_formatters();
        let args_summary = match t.summarize(&fmts) {
            Some(s) => s,
            None => {
                proof {
                    assert(false);
                }
                String::new()
            },
        };
        let commands_type = ArgType::Commands(c);
        let commands_summary = match commands_type.summarize(&fmts) {
            Some(s) => s,
            None => {
                proof {
                    assert(false);
                }
                String::new()
            },
        };
        let mut r = n.to_owned();
        r.append(" ");
        r.append(args_summary.as_str());
        r.append(" ");
        r.append(commands_summary.as_str());
        r.append(" ...");
        proof {
            assert(r@ =~= spec_usage(n@, t, commands_type->Commands_0, fmts@));
        }
        r
    }

    /// The help text, rendered with the built-in details configurations.
    fn help() -> (r: String)
        ensures
            exists|
                s: &'static str,
                u: String,
                t: ArgType,
                c: Commands,
                m: Map<u8, Formatter<'static>>,
            |
                {
                    &&& #[trigger] call_ensures(Self::summary, (), s)
                    &&& #[trigger] call_ensures(Self::usage, (), u)
                    &&& #[trigger] call_ensures(Self::arguments, (), t)
                    &&& #[trigger] call_ensures(Self::commands, (), c)
                    &&& #[trigger] is_default_details_map(m)
                    &&& r@ == spec_help(s@, u@, t, c, m)
                },
    {
        let s = Self::summary();
        let u = Self::usage();
        let t = Self::arguments();
        let c = Self::commands();
        let fmts = default_details_formatters();
        let arguments = match t.details(&fmts) {
            Some(d) => start_with(d, "  "),
            None => {
                proof {
                    assert(false);
                }
                String::new()
            },
        };
        let commands_type = ArgType::Commands(c);
        let commands = match commands_type.details(&fmts) {
            Some(d) => start_with(d, "  "),
            None => {
                proof {
                    assert(false);
                }
                String::new()
            },
        };
        let mut r = String::from_str("\n");
        r.append(s);
        r.append("\n\nUsage: ");
        r.append(u.as_str());
        r.append("\n\nArguments:\n");
        r.append(arguments.as_str());
        r.append("\nCommands:\n");
        r.append(commands.as_str());
        r.append("\n");
        proof {
            reveal_strlit("  ");
            assert(("  ")@ =~= seq![' ', ' ']);
            assert(r@ =~= spec_help(s@, u@, t, commands_type->Commands_0, fmts@));
        }
        r
    }
}

} // verus!

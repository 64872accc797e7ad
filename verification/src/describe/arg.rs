//! The argument tree and its depth-aware rendering.
//!
//! An [`Arg`] couples a label ([`Value`]) with a shape ([`ArgType`]): a leaf,
//! a tagged union of alternatives ([`Choices`]), or a record of members
//! ([`ArgGroup`]).  Two renderings are offered: `summarize`, a one-line
//! ordering of the arguments, and `details`, a multi-line listing with
//! descriptions.  A shallow union — nothing but bare alternatives below it —
//! collapses to its own name in the summary; a record never collapses.

use vstd::prelude::*;

use super::formatter::{
    opt_str, option_views, prefixed_lines, same_pieces, tail_prefixed_lines, Formatter,
};
use super::value::Value;

verus! {

/// A record of arguments: all members together, in order.
#[derive(Debug, PartialEq)]
pub struct ArgGroup(pub Vec<Arg>);

/// A tagged union of arguments: exactly one of the alternatives.
#[derive(Debug, PartialEq)]
pub struct Choices(pub Vec<Arg>);

/// The shape of an argument: a leaf value, or a composite of children.
#[derive(Debug, PartialEq)]
pub enum ArgType {
    /// A single plain value, no children.
    Value,
    /// One alternative out of several.
    Choices(Choices),
    /// All members together.
    Group(ArgGroup),
}

/// One node of the argument tree: its label, its shape, and its cached
/// depth, computed once at construction and never recomputed.
#[derive(Debug, PartialEq)]
pub struct Arg {
    pub value: Value<'static>,
    /// type of argument determining when and what to display
    pub arg_type: ArgType,
    pub max_depth: usize,
}

/// The depth an argument of the given shape reports: a leaf counts one;
/// selecting among alternatives costs a level on top of the deepest one;
/// a record sits at the level of its deepest member; a composite with no
/// children at all counts one, like a leaf.
pub open spec fn type_depth(t: ArgType) -> nat
    decreases t,
{
    match t {
        ArgType::Value => 1,
        ArgType::Choices(c) => if c.0@.len() == 0 {
            1
        } else {
            1 + seq_depth(c.0@)
        },
        ArgType::Group(g) => seq_depth(g.0@),
    }
}

/// The depth a single argument reports.
pub open spec fn arg_depth(a: Arg) -> nat
    decreases a,
{
    type_depth(a.arg_type)
}

/// The deepest depth reported among `args`, or one when there is none.
pub open spec fn seq_depth(args: Seq<Arg>) -> nat
    decreases args,
{
    if args.len() == 0 {
        1
    } else if args.len() == 1 {
        arg_depth(args.last())
    } else {
        let r = seq_depth(args.drop_last());
        let d = arg_depth(args.last());
        if r >= d {
            r
        } else {
            d
        }
    }
}

/// Whether every cached depth in the tree under `t` is the one `type_depth`
/// assigns.
pub open spec fn type_wf(t: ArgType) -> bool
    decreases t,
{
    match t {
        ArgType::Value => true,
        ArgType::Choices(c) => seq_wf(c.0@),
        ArgType::Group(g) => seq_wf(g.0@),
    }
}

impl Arg {
    /// Whether the cached depth of this node and of every node below it is
    /// the one construction assigns.
    pub open spec fn wf(self) -> bool
        decreases self,
    {
        self.max_depth == type_depth(self.arg_type) && type_wf(self.arg_type)
    }
}

pub open spec fn seq_wf(args: Seq<Arg>) -> bool
    decreases args,
{
    if args.len() == 0 {
        true
    } else {
        seq_wf(args.drop_last()) && args.last().wf()
    }
}

pub proof fn lemma_seq_wf_index(args: Seq<Arg>)
    ensures
        seq_wf(args) <==> (forall|i: int| 0 <= i < args.len() ==> #[trigger] args[i].wf()),
    decreases args.len(),
{
    if args.len() > 0 {
        lemma_seq_wf_index(args.drop_last());
        if seq_wf(args) {
            assert forall|i: int| 0 <= i < args.len() implies #[trigger] args[i].wf() by {
                if i < args.len() - 1 {
                    assert(args.drop_last()[i] == args[i]);
                } else {
                    assert(args.last() == args[i]);
                }
            }
        }
        if forall|i: int| 0 <= i < args.len() ==> #[trigger] args[i].wf() {
            assert forall|i: int|
                0 <= i < args.drop_last().len() implies #[trigger] args.drop_last()[i].wf() by {
                assert(args.drop_last()[i] == args[i]);
                assert(args[i].wf());
            }
            assert(args[args.len() - 1].wf());
            assert(args.last() == args[args.len() - 1]);
        }
    }
}

// ---------------------------------------------------------------------------
// The renderings, as functions of the tree alone.
// ---------------------------------------------------------------------------
/// The one-line summary of an argument.
///
/// A leaf is its name.  A union whose depth stays within two is its name as
/// well — its alternatives are deferred to the detailed view.  A deeper
/// union, and a record always, expand into their children.
pub open spec fn arg_summary(a: Arg) -> Seq<char>
    decreases a,
{
    match a.arg_type {
        ArgType::Value => a.value.name@,
        ArgType::Choices(c) => if a.max_depth <= 2 {
            a.value.name@
        } else {
            seq!['<'] + choices_summary_items(c.0@) + seq!['>']
        },
        ArgType::Group(g) => group_summary_items(g.0@),
    }
}

/// The summaries of union alternatives, joined by `|`.
pub open spec fn choices_summary_items(args: Seq<Arg>) -> Seq<char>
    decreases args,
{
    if args.len() == 0 {
        Seq::empty()
    } else {
        let acc = choices_summary_items(args.drop_last());
        acc + (if acc.len() == 0 {
            Seq::<char>::empty()
        } else {
            seq!['|']
        }) + arg_summary(args.last())
    }
}

/// The summaries of record members, each within `< >`, separated by spaces.
pub open spec fn group_summary_items(args: Seq<Arg>) -> Seq<char>
    decreases args,
{
    if args.len() == 0 {
        Seq::empty()
    } else {
        let acc = group_summary_items(args.drop_last());
        acc + (if acc.len() == 0 {
            Seq::<char>::empty()
        } else {
            seq![' ']
        }) + seq!['<'] + arg_summary(args.last()) + seq!['>']
    }
}

/// The detailed listing of an argument.
///
/// A leaf is one labelled line.  A union within depth two keeps that line as
/// a header and nests its bulleted alternatives under a two-column indent; a
/// deeper union, and a record always, pour their children's lines directly
/// into the listing.
pub open spec fn arg_details(a: Arg) -> Seq<char>
    decreases a,
{
    match a.arg_type {
        ArgType::Value => a.value.spec_display_alternate() + seq!['\n'],
        ArgType::Choices(c) => if a.max_depth <= 2 {
            a.value.spec_display_alternate() + seq!['\n'] + prefixed_lines(
                choices_details_items(c.0@),
                seq![' ', ' '],
            )
        } else {
            choices_details_items(c.0@)
        },
        ArgType::Group(g) => group_details_items(g.0@),
    }
}

/// The details of union alternatives: each bulleted with `- `, its
/// continuation lines indented two columns.
pub open spec fn choices_details_items(args: Seq<Arg>) -> Seq<char>
    decreases args,
{
    if args.len() == 0 {
        Seq::empty()
    } else {
        choices_details_items(args.drop_last()) + seq!['-', ' '] + tail_prefixed_lines(
            arg_details(args.last()),
            seq![' ', ' '],
        )
    }
}

/// The details of record members: their lines, plainly concatenated.
pub open spec fn group_details_items(args: Seq<Arg>) -> Seq<char>
    decreases args,
{
    if args.len() == 0 {
        Seq::empty()
    } else {
        group_details_items(args.drop_last()) + arg_details(args.last())
    }
}

// ---------------------------------------------------------------------------
// The rendering traits.
// ---------------------------------------------------------------------------
/// Access to the child arguments a container holds.
pub trait GetArgs {
    /// The sequence of children, as the contracts speak of it.
    spec fn spec_args(&self) -> Seq<Arg>;

    fn get_args(&self) -> (r: &Vec<Arg>)
        ensures
            r@ == self.spec_args(),
    ;
}

/// The join configuration a container's summary is rendered with.
pub trait SummaryFormatter {
    spec fn spec_summary_formatter() -> Formatter<'static>;

    fn get_summary_formatter() -> (r: Formatter<'static>)
        ensures
            same_pieces(r, Self::spec_summary_formatter()),
    ;
}

/// The join configuration a container's details are rendered with.
pub trait DetailsFormatter {
    spec fn spec_details_formatter() -> Formatter<'static>;

    fn get_details_formatter() -> (r: Formatter<'static>)
        ensures
            same_pieces(r, Self::spec_details_formatter()),
    ;
}

/// A container whose children can be summarized in one line.
pub trait ArgSummarize: GetArgs + SummaryFormatter {
    /// What the summary of this container is.
    spec fn spec_summarize(&self) -> Seq<char>;

    fn summarize(&self) -> (r: String)
        requires
            seq_wf(self.spec_args()),
        ensures
            r@ == self.spec_summarize(),
    ;
}

/// A container whose children can be listed with their descriptions.
pub trait ArgDetails: GetArgs + DetailsFormatter {
    /// What the detailed listing of this container is.
    spec fn spec_details(&self) -> Seq<char>;

    fn details(&self) -> (r: String)
        requires
            seq_wf(self.spec_args()),
        ensures
            r@ == self.spec_details(),
    ;
}

/// Provides a description of an object as a tree of arguments:
/// choices for a tagged union, a group for a record.
pub trait AsArg {
    fn arguments() -> (r: ArgType)
        ensures
            type_wf(r),
    ;
}

// ---------------------------------------------------------------------------
// Joining rendered children equals the direct folds above.
// ---------------------------------------------------------------------------
proof fn lemma_choices_summary_join(f: Formatter, parts: Seq<Option<Seq<char>>>, args: Seq<Arg>)
    requires
        opt_str(f.start).len() == 0,
        opt_str(f.end).len() == 0,
        opt_str(f.middle) == seq!['|'],
        !f.new_line_chars.is_some(),
        parts.len() == args.len(),
        forall|i: int| 0 <= i < args.len() ==> parts[i] == Some(arg_summary(#[trigger] args[i])),
    ensures
        f.joined(parts) == choices_summary_items(args),
    decreases args.len(),
{
    if args.len() > 0 {
        assert forall|i: int|
            0 <= i < args.drop_last().len() implies parts.drop_last()[i] == Some(
            arg_summary(#[trigger] args.drop_last()[i]),
        ) by {
            assert(parts.drop_last()[i] == parts[i]);
            assert(args.drop_last()[i] == args[i]);
        }
        lemma_choices_summary_join(f, parts.drop_last(), args.drop_last());
        assert(parts.last() == parts[parts.len() - 1]);
        assert(args.last() == args[args.len() - 1]);
        assert(f.joined(parts) =~= choices_summary_items(args));
    }
}

proof fn lemma_group_summary_join(f: Formatter, parts: Seq<Option<Seq<char>>>, args: Seq<Arg>)
    requires
        opt_str(f.start) == seq!['<'],
        opt_str(f.end) == seq!['>'],
        opt_str(f.middle) == seq![' '],
        !f.new_line_chars.is_some(),
        parts.len() == args.len(),
        forall|i: int| 0 <= i < args.len() ==> parts[i] == Some(arg_summary(#[trigger] args[i])),
    ensures
        f.joined(parts) == group_summary_items(args),
    decreases args.len(),
{
    if args.len() > 0 {
        assert forall|i: int|
            0 <= i < args.drop_last().len() implies parts.drop_last()[i] == Some(
            arg_summary(#[trigger] args.drop_last()[i]),
        ) by {
            assert(parts.drop_last()[i] == parts[i]);
            assert(args.drop_last()[i] == args[i]);
        }
        lemma_group_summary_join(f, parts.drop_last(), args.drop_last());
        assert(parts.last() == parts[parts.len() - 1]);
        assert(args.last() == args[args.len() - 1]);
        assert(f.joined(parts) =~= group_summary_items(args));
    }
}

proof fn lemma_choices_details_join(f: Formatter, parts: Seq<Option<Seq<char>>>, args: Seq<Arg>)
    requires
        opt_str(f.start) == seq!['-', ' '],
        opt_str(f.end).len() == 0,
        opt_str(f.middle).len() == 0,
        f.new_line_chars.is_some(),
        opt_str(f.new_line_chars) == seq![' ', ' '],
        parts.len() == args.len(),
        forall|i: int| 0 <= i < args.len() ==> parts[i] == Some(arg_details(#[trigger] args[i])),
    ensures
        f.joined(parts) == choices_details_items(args),
    decreases args.len(),
{
    if args.len() > 0 {
        assert forall|i: int|
            0 <= i < args.drop_last().len() implies parts.drop_last()[i] == Some(
            arg_details(#[trigger] args.drop_last()[i]),
        ) by {
            assert(parts.drop_last()[i] == parts[i]);
            assert(args.drop_last()[i] == args[i]);
        }
        lemma_choices_details_join(f, parts.drop_last(), args.drop_last());
        assert(parts.last() == parts[parts.len() - 1]);
        assert(args.last() == args[args.len() - 1]);
        assert(f.joined(parts) =~= choices_details_items(args));
    }
}

proof fn lemma_group_details_join(f: Formatter, parts: Seq<Option<Seq<char>>>, args: Seq<Arg>)
    requires
        opt_str(f.start).len() == 0,
        opt_str(f.end).len() == 0,
        opt_str(f.middle).len() == 0,
        !f.new_line_chars.is_some(),
        parts.len() == args.len(),
        forall|i: int| 0 <= i < args.len() ==> parts[i] == Some(arg_details(#[trigger] args[i])),
    ensures
        f.joined(parts) == group_details_items(args),
    decreases args.len(),
{
    if args.len() > 0 {
        assert forall|i: int|
            0 <= i < args.drop_last().len() implies parts.drop_last()[i] == Some(
            arg_details(#[trigger] args.drop_last()[i]),
        ) by {
            assert(parts.drop_last()[i] == parts[i]);
            assert(args.drop_last()[i] == args[i]);
        }
        lemma_group_details_join(f, parts.drop_last(), args.drop_last());
        assert(parts.last() == parts[parts.len() - 1]);
        assert(args.last() == args[args.len() - 1]);
        assert(f.joined(parts) =~= group_details_items(args));
    }
}

// ---------------------------------------------------------------------------
// Laws of the depth-aware rendering.
// ---------------------------------------------------------------------------
/// A non-empty union whose depth stays within two is summarized by its bare
/// name alone, and detailed as its own labelled header line followed by its
/// bulleted alternatives, the whole sub-list indented by two columns.
pub proof fn lemma_shallow_choices_rendering(a: Arg)
    requires
        a.wf(),
        a.arg_type is Choices,
        a.arg_type->Choices_0.0@.len() > 0,
        a.max_depth <= 2,
    ensures
        arg_summary(a) == a.value.name@,
        arg_details(a) == a.value.spec_display_alternate() + seq!['\n'] + prefixed_lines(
            choices_details_items(a.arg_type->Choices_0.0@),
            seq![' ', ' '],
        ),
{
}

/// A record argument never collapses to its bare name: whatever its depth,
/// its summary is the full rendering of its members.
pub proof fn lemma_group_never_collapses(a: Arg)
    requires
        a.wf(),
        a.arg_type is Group,
    ensures
        arg_summary(a) == group_summary_items(a.arg_type->Group_0.0@),
{
}

// ---------------------------------------------------------------------------
// The recursive renderers.
// ---------------------------------------------------------------------------
/// The summary of each child, in order, ready for joining.
fn render_summaries(args: &Vec<Arg>) -> (parts: Vec<Option<String>>)
    requires
        seq_wf(args@),
    ensures
        parts@.len() == args@.len(),
        forall|i: int|
            0 <= i < args@.len() ==> option_views(parts@)[i] == Some(
                arg_summary(#[trigger] args@[i]),
            ),
    decreases args@, 0int,
{
    let mut parts: Vec<Option<String>> = Vec::new();
    let mut i: usize = 0;
    while i < args.len()
        invariant
            seq_wf(args@),
            i <= args@.len(),
            parts@.len() == i,
            forall|k: int|
                0 <= k < i ==> option_views(parts@)[k] == Some(arg_summary(#[trigger] args@[k])),
        decreases args@.len() - i,
    {
        proof {
            lemma_seq_wf_index(args@);
            assert(args@[i as int].wf());
            assert(decreases_to!(args@ => args@[i as int]));
        }
        let s = args[i].summarize();
        parts.push(Some(s));
        i += 1;
    }
    parts
}

/// The details of each child, in order, ready for joining.
fn render_details(args: &Vec<Arg>) -> (parts: Vec<Option<String>>)
    requires
        seq_wf(args@),
    ensures
        parts@.len() == args@.len(),
        forall|i: int|
            0 <= i < args@.len() ==> option_views(parts@)[i] == Some(
                arg_details(#[trigger] args@[i]),
            ),
    decreases args@, 0int,
{
    let mut parts: Vec<Option<String>> = Vec::new();
    let mut i: usize = 0;
    while i < args.len()
        invariant
            seq_wf(args@),
            i <= args@.len(),
            parts@.len() == i,
            forall|k: int|
                0 <= k < i ==> option_views(parts@)[k] == Some(arg_details(#[trigger] args@[k])),
        decreases args@.len() - i,
    {
        proof {
            lemma_seq_wf_index(args@);
            assert(args@[i as int].wf());
            assert(decreases_to!(args@ => args@[i as int]));
        }
        let s = args[i].details();
        parts.push(Some(s));
        i += 1;
    }
    parts
}

/// The alternatives' summaries joined by `|` inside `< >`.
fn choices_summary_string(args: &Vec<Arg>) -> (r: String)
    requires
        seq_wf(args@),
    ensures
        r@ == seq!['<'] + choices_summary_items(args@) + seq!['>'],
    decreases args@, 1int,
{
    let parts = render_summaries(args);
    let f = Choices::get_summary_formatter();
    let r = f.fmt_rendered(&parts);
    proof {
        reveal_strlit("<");
        reveal_strlit(">");
        reveal_strlit("|");
        assert(opt_str(f.middle) =~= seq!['|']);
        lemma_choices_summary_join(f, option_views(parts@), args@);
        assert(opt_str(f.very_start) =~= seq!['<']);
        assert(opt_str(f.very_end) =~= seq!['>']);
        assert(r@ =~= seq!['<'] + choices_summary_items(args@) + seq!['>']);
    }
    r
}

/// The members' summaries, each inside `< >`, separated by spaces.
fn group_summary_string(args: &Vec<Arg>) -> (r: String)
    requires
        seq_wf(args@),
    ensures
        r@ == group_summary_items(args@),
    decreases args@, 1int,
{
    let parts = render_summaries(args);
    let f = ArgGroup::get_summary_formatter();
    let r = f.fmt_rendered(&parts);
    proof {
        reveal_strlit("<");
        reveal_strlit(">");
        reveal_strlit(" ");
        assert(opt_str(f.start) =~= seq!['<']);
        assert(opt_str(f.end) =~= seq!['>']);
        assert(opt_str(f.middle) =~= seq![' ']);
        lemma_group_summary_join(f, option_views(parts@), args@);
        assert(r@ =~= group_summary_items(args@));
    }
    r
}

/// The alternatives' details, bulleted and indented.
fn choices_details_string(args: &Vec<Arg>) -> (r: String)
    requires
        seq_wf(args@),
    ensures
        r@ == choices_details_items(args@),
    decreases args@, 1int,
{
    let parts = render_details(args);
    let f = Choices::get_details_formatter();
    let r = f.fmt_rendered(&parts);
    proof {
        reveal_strlit("- ");
        reveal_strlit("  ");
        assert(opt_str(f.start) =~= seq!['-', ' ']);
        assert(opt_str(f.new_line_chars) =~= seq![' ', ' ']);
        lemma_choices_details_join(f, option_views(parts@), args@);
        assert(r@ =~= choices_details_items(args@));
    }
    r
}

/// The members' details, plainly concatenated.
fn group_details_string(args: &Vec<Arg>) -> (r: String)
    requires
        seq_wf(args@),
    ensures
        r@ == group_details_items(args@),
    decreases args@, 1int,
{
    let parts = render_details(args);
    let f = ArgGroup::get_details_formatter();
    let r = f.fmt_rendered(&parts);
    proof {
        lemma_group_details_join(f, option_views(parts@), args@);
        assert(r@ =~= group_details_items(args@));
    }
    r
}

/// The deepest depth cached among `args`, or one when there is none.
fn max_depth_of(args: &Vec<Arg>) -> (r: usize)
    requires
        seq_wf(args@),
    ensures
        r == seq_depth(args@),
{
    if args.len() == 0 {
        return 1;
    }
    proof {
        lemma_seq_wf_index(args@);
        assert(args@[0].wf());
        assert(args@.take(1).last() == args@[0]);
        assert(args@.take(1).len() == 1);
        assert(seq_depth(args@.take(1)) == arg_depth(args@[0]));
    }
    let mut m: usize = args[0].max_depth;
    let mut i: usize = 1;
    while i < args.len()
        invariant
            1 <= i <= args@.len(),
            seq_wf(args@),
            m == seq_depth(args@.take(i as int)),
        decreases args@.len() - i,
    {
        proof {
            lemma_seq_wf_index(args@);
            assert(args@[i as int].wf());
            assert(args@.take(i + 1).drop_last() =~= args@.take(i as int));
            assert(args@.take(i + 1).last() == args@[i as int]);
            assert(args@.take(i + 1).len() == i + 1);
            assert(seq_depth(args@.take(i + 1)) == (if seq_depth(args@.take(i as int))
                >= arg_depth(args@[i as int]) {
                seq_depth(args@.take(i as int))
            } else {
                arg_depth(args@[i as int])
            }));
        }
        if args[i].max_depth > m {
            m = args[i].max_depth;
        }
        i += 1;
    }
    proof {
        assert(args@.take(args@.len() as int) =~= args@);
    }
    m
}

impl Arg {
    /// Creates an argument with its inner type; the reported depth is
    /// computed here, once, and cached.
    pub fn with_type(name: &'static str, description: Option<&'static str>, arg_type: ArgType) -> (r:
        Arg)
        requires
            type_wf(arg_type),
            type_depth(arg_type) <= usize::MAX,
        ensures
            r.wf(),
            r.value.name == name,
            r.value.description == description,
            r.arg_type == arg_type,
    {
        let max_depth: usize = match &arg_type {
            ArgType::Choices(choices) => {
                if choices.0.len() == 0 {
                    1
                } else {
                    max_depth_of(&choices.0) + 1
                }
            },
            ArgType::Group(group) => max_depth_of(&group.0),
            ArgType::Value => 1,
        };
        Arg { value: Value { name, description }, arg_type, max_depth }
    }

    /// The default construction: a single plain value.
    pub fn new(name: &'static str, description: Option<&'static str>) -> (r: Arg)
        ensures
            r.wf(),
            r.value.name == name,
            r.value.description == description,
            r.arg_type == ArgType::Value,
    {
        Arg { value: Value { name, description }, arg_type: ArgType::Value, max_depth: 1 }
    }

    /// The argument's place in the one-line usage summary.
    pub fn summarize(&self) -> (r: String)
        requires
            self.wf(),
        ensures
            r@ == arg_summary(*self),
        decreases *self, 0int,
    {
        match &self.arg_type {
            ArgType::Value => self.value.name.to_owned(),
            ArgType::Choices(choices) => {
                if self.max_depth <= 2 {
                    self.value.name.to_owned()
                } else {
                    proof {
                        assert(decreases_to!(*self => (*self).arg_type));
                        assert(decreases_to!((*self).arg_type => (*self).arg_type->Choices_0));
                        assert(decreases_to!(
                            (*self).arg_type->Choices_0 => (*self).arg_type->Choices_0.0));
                        assert(decreases_to!(
                            (*self).arg_type->Choices_0.0 => (*self).arg_type->Choices_0.0@));
                        assert((*self).arg_type->Choices_0.0@ == choices.0@);
                        assert(decreases_to!(*self => choices.0@));
                    }
                    choices_summary_string(&choices.0)
                }
            },
            ArgType::Group(group) => {
                proof {
                    assert(decreases_to!(*self => (*self).arg_type));
                    assert(decreases_to!((*self).arg_type => (*self).arg_type->Group_0));
                    assert(decreases_to!(
                        (*self).arg_type->Group_0 => (*self).arg_type->Group_0.0));
                    assert(decreases_to!(
                        (*self).arg_type->Group_0.0 => (*self).arg_type->Group_0.0@));
                    assert((*self).arg_type->Group_0.0@ == group.0@);
                    assert(decreases_to!(*self => group.0@));
                }
                group_summary_string(&group.0)
            },
        }
    }

    /// The argument's lines in the detailed listing.
    pub fn details(&self) -> (r: String)
        requires
            self.wf(),
        ensures
            r@ == arg_details(*self),
        decreases *self, 0int,
    {
        match &self.arg_type {
            ArgType::Value => {
                let mut r = self.value.display_alternate();
                r.append("\n");
                proof {
                    reveal_strlit("\n");
                    assert(r@ =~= arg_details(*self));
                }
                r
            },
            ArgType::Choices(choices) => {
                proof {
                    assert(decreases_to!(*self => (*self).arg_type));
                    assert(decreases_to!((*self).arg_type => (*self).arg_type->Choices_0));
                    assert(decreases_to!(
                        (*self).arg_type->Choices_0 => (*self).arg_type->Choices_0.0));
                    assert(decreases_to!(
                        (*self).arg_type->Choices_0.0 => (*self).arg_type->Choices_0.0@));
                    assert((*self).arg_type->Choices_0.0@ == choices.0@);
                    assert(decreases_to!(*self => choices.0@));
                }
                if self.max_depth <= 2 {
                    let sub = choices_details_string(&choices.0);
                    let mut r = self.value.display_alternate();
                    r.append("\n");
                    r.append(super::formatter::start_with(sub, "  ").as_str());
                    proof {
                        reveal_strlit("\n");
                        reveal_strlit("  ");
                        assert(("  ")@ =~= seq![' ', ' ']);
                        assert(r@ =~= arg_details(*self));
                    }
                    r
                } else {
                    choices_details_string(&choices.0)
                }
            },
            ArgType::Group(group) => {
                proof {
                    assert(decreases_to!(*self => (*self).arg_type));
                    assert(decreases_to!((*self).arg_type => (*self).arg_type->Group_0));
                    assert(decreases_to!(
                        (*self).arg_type->Group_0 => (*self).arg_type->Group_0.0));
                    assert(decreases_to!(
                        (*self).arg_type->Group_0.0 => (*self).arg_type->Group_0.0@));
                    assert((*self).arg_type->Group_0.0@ == group.0@);
                    assert(decreases_to!(*self => group.0@));
                }
                group_details_string(&group.0)
            },
        }
    }
}

// ---------------------------------------------------------------------------
// The two containers and their renderings.
// ---------------------------------------------------------------------------
impl GetArgs for ArgGroup {
    open spec fn spec_args(&self) -> Seq<Arg> {
        self.0@
    }

    fn get_args(&self) -> (r: &Vec<Arg>) {
        &self.0
    }
}

impl SummaryFormatter for ArgGroup {
    open spec fn spec_summary_formatter() -> Formatter<'static> {
        Formatter {
            very_start: None,
            very_end: None,
            start: Some("<"),
            end: Some(">"),
            middle: Some(" "),
            new_line_chars: None,
        }
    }

    fn get_summary_formatter() -> (r: Formatter<'static>) {
        Formatter {
            very_start: None,
            very_end: None,
            start: Some("<"),
            end: Some(">"),
            middle: Some(" "),
            new_line_chars: None,
        }
    }
}

impl ArgSummarize for ArgGroup {
    open spec fn spec_summarize(&self) -> Seq<char> {
        group_summary_items(self.0@)
    }

    fn summarize(&self) -> (r: String) {
        group_summary_string(&self.0)
    }
}

impl DetailsFormatter for ArgGroup {
    open spec fn spec_details_formatter() -> Formatter<'static> {
        Formatter {
            very_start: None,
            very_end: None,
            start: None,
            end: None,
            middle: None,
            new_line_chars: None,
        }
    }

    fn get_details_formatter() -> (r: Formatter<'static>) {
        Formatter {
            very_start: None,
            very_end: None,
            start: None,
            end: None,
            middle: None,
            new_line_chars: None,
        }
    }
}

impl ArgDetails for ArgGroup {
    open spec fn spec_details(&self) -> Seq<char> {
        group_details_items(self.0@)
    }

    fn details(&self) -> (r: String) {
        group_details_string(&self.0)
    }
}

impl GetArgs for Choices {
    open spec fn spec_args(&self) -> Seq<Arg> {
        self.0@
    }

    fn get_args(&self) -> (r: &Vec<Arg>) {
        &self.0
    }
}

impl SummaryFormatter for Choices {
    open spec fn spec_summary_formatter() -> Formatter<'static> {
        Formatter {
            very_start: Some("<"),
            very_end: Some(">"),
            start: None,
            end: None,
            middle: Some("|"),
            new_line_chars: None,
        }
    }

    fn get_summary_formatter() -> (r: Formatter<'static>) {
        Formatter {
            very_start: Some("<"),
            very_end: Some(">"),
            start: None,
            end: None,
            middle: Some("|"),
            new_line_chars: None,
        }
    }
}

impl ArgSummarize for Choices {
    open spec fn spec_summarize(&self) -> Seq<char> {
        seq!['<'] + choices_summary_items(self.0@) + seq!['>']
    }

    fn summarize(&self) -> (r: String) {
        choices_summary_string(&self.0)
    }
}

impl DetailsFormatter for Choices {
    open spec fn spec_details_formatter() -> Formatter<'static> {
        Formatter {
            very_start: None,
            very_end: None,
            start: Some("- "),
            end: None,
            middle: None,
            new_line_chars: Some("  "),
        }
    }

    fn get_details_formatter() -> (r: Formatter<'static>) {
        Formatter {
            very_start: None,
            very_end: None,
            start: Some("- "),
            end: None,
            middle: None,
            new_line_chars: Some("  "),
        }
    }
}

impl ArgDetails for Choices {
    open spec fn spec_details(&self) -> Seq<char> {
        choices_details_items(self.0@)
    }

    fn details(&self) -> (r: String) {
        choices_details_string(&self.0)
    }
}

} // verus!

//! A named, described command: one argument tree and, optionally, an
//! ordered list of child commands.

use vstd::prelude::*;

use super::arg::{
    group_details_items, group_summary_items, seq_wf, Arg, ArgDetails, ArgGroup, ArgSummarize,
    DetailsFormatter, GetArgs,
};
use super::formatter::{opt_str, option_views, prefixed_lines, start_with, Formatter};
use super::value::Value;

verus! {

/// A command: its label, its positional arguments, and its subcommands.
/// `subcommands` holding `None` marks a leaf command; `Some` composes
/// recursively to arbitrary depth.
#[derive(Debug, PartialEq)]
pub struct Command {
    pub value: Value<'static>,
    pub subcommands: Option<Vec<Command>>,
    pub arguments: ArgGroup,
}

/// The name/description line of each command, one per line.
pub open spec fn commands_list(cmds: Seq<Command>) -> Seq<char>
    decreases cmds.len(),
{
    if cmds.len() == 0 {
        Seq::empty()
    } else {
        commands_list(cmds.drop_last()) + cmds.last().value.spec_display_alternate() + seq!['\n']
    }
}

impl Command {
    /// Whether the command's own argument tree carries correct cached
    /// depths.
    pub open spec fn wf(self) -> bool {
        seq_wf(self.arguments.0@)
    }

    /// The one-line usage: the name, the argument summary when there are
    /// arguments, and a trailing command placeholder when subcommands exist.
    pub open spec fn spec_summarize(self) -> Seq<char> {
        self.value.spec_display() + (if self.arguments.0@.len() > 0 {
            (" ")@ + group_summary_items(self.arguments.0@)
        } else {
            Seq::<char>::empty()
        }) + (if self.subcommands.is_some() {
            (" [COMMAND] ..")@
        } else {
            Seq::<char>::empty()
        })
    }

    /// The `Arguments:` block: the argument details, indented two columns.
    pub open spec fn spec_arguments_details(self) -> Seq<char> {
        ("Arguments:\n")@ + prefixed_lines(group_details_items(self.arguments.0@), seq![' ', ' '])
    }

    /// The `Commands:` block: each subcommand's labelled line — not its
    /// recursive tree — indented two columns.
    pub open spec fn spec_commands_details(cmds: Seq<Command>) -> Seq<char> {
        ("Commands:\n")@ + prefixed_lines(commands_list(cmds), seq![' ', ' '])
    }

    /// The full listing: the arguments block if there are arguments, a blank
    /// line when both blocks are present, then the commands block if there
    /// are subcommands.
    pub open spec fn spec_details(self) -> Seq<char> {
        (if self.arguments.0@.len() > 0 {
            self.spec_arguments_details() + (if self.subcommands.is_some() {
                seq!['\n']
            } else {
                Seq::<char>::empty()
            })
        } else {
            Seq::<char>::empty()
        }) + (match self.subcommands {
            Option::Some(cmds) => Self::spec_commands_details(cmds@),
            Option::None => Seq::<char>::empty(),
        })
    }

    /// The help text: the description paragraph when there is one, the
    /// usage line, a blank line, and the listing.
    pub open spec fn spec_help(self) -> Seq<char> {
        (match self.value.description {
            Option::Some(d) => d@ + ("\n\n")@,
            Option::None => Seq::<char>::empty(),
        }) + ("Usage: ")@ + self.spec_summarize() + ("\n\n")@ + self.spec_details()
    }

    /// A leaf command with no arguments yet.
    pub fn new(name: &'static str, description: Option<&'static str>) -> (r: Self)
        ensures
            r.wf(),
            r.value.name == name,
            r.value.description == description,
            r.subcommands.is_none(),
            r.arguments.0@.len() == 0,
    {
        Self {
            value: Value { name, description },
            subcommands: None,
            arguments: ArgGroup(Vec::new()),
        }
    }

    pub fn set_subcommands(&mut self, subcommands: Vec<Command>)
        ensures
            final(self).value == old(self).value,
            final(self).arguments == old(self).arguments,
            final(self).subcommands == Some(subcommands),
    {
        self.subcommands = Some(subcommands);
    }

    /// Appends `arguments` to the command's argument group.
    pub fn set_arguments(&mut self, arguments: Vec<Arg>)
        requires
            old(self).wf(),
            seq_wf(arguments@),
        ensures
            final(self).wf(),
            final(self).value == old(self).value,
            final(self).subcommands == old(self).subcommands,
            final(self).arguments.0@ == old(self).arguments.0@ + arguments@,
    {
        let ghost before = self.arguments.0@;
        let mut rest = arguments;
        self.arguments.0.append(&mut rest);
        proof {
            super::arg::lemma_seq_wf_index(before);
            super::arg::lemma_seq_wf_index(arguments@);
            super::arg::lemma_seq_wf_index(self.arguments.0@);
            assert forall|i: int| 0 <= i < self.arguments.0@.len() implies #[trigger] self.arguments.0@[i].wf() by {
                if i < before.len() {
                    assert(self.arguments.0@[i] == before[i]);
                } else {
                    assert(self.arguments.0@[i] == arguments@[i - before.len()]);
                }
            }
        }
    }

    /// The one-line usage summary.
    pub fn summarize(&self) -> (r: String)
        requires
            self.wf(),
        ensures
            r@ == self.spec_summarize(),
    {
        let mut result = self.value.display();
        if !self.arguments.get_args().is_empty() {
            result.append(" ");
            result.append(self.arguments.summarize().as_str());
        }
        if self.subcommands.is_some() {
            result.append(" [COMMAND] ..");
        }
        proof {
            assert(result@ =~= self.spec_summarize());
        }
        result
    }

    /// The `Arguments:` block.
    fn arguments_details(&self) -> (r: String)
        requires
            self.wf(),
        ensures
            r@ == self.spec_arguments_details(),
    {
        let mut r = String::from_str("Arguments:\n");
        r.append(start_with(self.arguments.details(), "  ").as_str());
        proof {
            reveal_strlit("  ");
            assert(("  ")@ =~= seq![' ', ' ']);
            assert(r@ =~= self.spec_arguments_details());
        }
        r
    }

    /// The `Commands:` block for the given subcommand list.
    fn command_details(&self, command: &Vec<Command>) -> (r: String)
        ensures
            r@ == Self::spec_commands_details(command@),
    {
        let f = Self::get_details_formatter();
        let mut parts: Vec<Option<String>> = Vec::new();
        let mut i: usize = 0;
        while i < command.len()
            invariant
                i <= command@.len(),
                parts@.len() == i,
                forall|k: int|
                    0 <= k < i ==> option_views(parts@)[k] == Some(
                        (#[trigger] command@[k]).value.spec_display_alternate() + seq!['\n'],
                    ),
            decreases command@.len() - i,
        {
            let mut line = command[i].value.display_alternate();
            line.append("\n");
            proof {
                reveal_strlit("\n");
                assert(line@ =~= command@[i as int].value.spec_display_alternate() + seq!['\n']);
            }
            parts.push(Some(line));
            i += 1;
        }
        let joined = f.fmt_rendered(&parts);
        proof {
            lemma_commands_join(f, option_views(parts@), command@);
            assert(joined@ =~= commands_list(command@));
        }
        let mut r = String::from_str("Commands:\n");
        r.append(start_with(joined, "  ").as_str());
        proof {
            reveal_strlit("  ");
            assert(("  ")@ =~= seq![' ', ' ']);
            assert(r@ =~= Self::spec_commands_details(command@));
        }
        r
    }

    /// The full listing: arguments, then subcommands.
    pub fn details(&self) -> (r: String)
        requires
            self.wf(),
        ensures
            r@ == self.spec_details(),
    {
        let mut result = String::new();
        if !self.arguments.get_args().is_empty() {
            result.append(self.arguments_details().as_str());
            if self.subcommands.is_some() {
                result.append("\n");
                proof {
                    reveal_strlit("\n");
                    assert(("\n")@ =~= seq!['\n']);
                }
            }
        }
        if let Some(commands) = &self.subcommands {
            result.append(self.command_details(commands).as_str());
        }
        proof {
            assert(result@ =~= self.spec_details());
        }
        result
    }

    /// The help text.
    pub fn help(&self) -> (r: String)
        requires
            self.wf(),
        ensures
            r@ == self.spec_help(),
    {
        let mut r = String::new();
        match self.value.description {
            Option::Some(d) => {
                r.append(d);
                r.append("\n\n");
            },
            Option::None => {},
        }
        r.append("Usage: ");
        r.append(self.summarize().as_str());
        r.append("\n\n");
        r.append(self.details().as_str());
        proof {
            assert(r@ =~= self.spec_help());
        }
        r
    }
}

impl DetailsFormatter for Command {
    open spec fn spec_details_formatter() -> Formatter<'static> {
        Formatter {
            very_start: None,
            very_end: None,
            start: None,
            end: None,
            middle: None,
            new_line_chars: None,
        }
    }

    fn get_details_formatter() -> (r: Formatter<'static>) {
        Formatter {
            very_start: None,
            very_end: None,
            start: None,
            end: None,
            middle: None,
            new_line_chars: None,
        }
    }
}

proof fn lemma_commands_join(f: Formatter, parts: Seq<Option<Seq<char>>>, cmds: Seq<Command>)
    requires
        opt_str(f.start).len() == 0,
        opt_str(f.end).len() == 0,
        opt_str(f.middle).len() == 0,
        !f.new_line_chars.is_some(),
        parts.len() == cmds.len(),
        forall|i: int|
            0 <= i < cmds.len() ==> parts[i] == Some(
                (#[trigger] cmds[i]).value.spec_display_alternate() + seq!['\n'],
            ),
    ensures
        f.joined(parts) == commands_list(cmds),
    decreases cmds.len(),
{
    if cmds.len() > 0 {
        assert forall|i: int|
            0 <= i < cmds.drop_last().len() implies parts.drop_last()[i] == Some(
            (#[trigger] cmds.drop_last()[i]).value.spec_display_alternate() + seq!['\n'],
        ) by {
            assert(parts.drop_last()[i] == parts[i]);
            assert(cmds.drop_last()[i] == cmds[i]);
        }
        lemma_commands_join(f, parts.drop_last(), cmds.drop_last());
        assert(parts.last() == parts[parts.len() - 1]);
        assert(cmds.last() == cmds[cmds.len() - 1]);
        assert(f.joined(parts) =~= commands_list(cmds));
    }
}

/// Provides the description of an object as a command.
pub trait AsCommand {
    fn command() -> (r: Command)
        ensures
            r.wf(),
    ;

    /// The help text of the described command.
    fn help() -> (r: String)
        ensures
            exists|c: Command|
                #[trigger] call_ensures(Self::command, (), c) && r@ == c.spec_help(),
    {
        let c = Self::command();
        c.help()
    }
}

} // verus!

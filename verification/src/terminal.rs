//! Shell-like front end over the runtime: registered commands are looked
//! up by the first word of an input line, produce a one-shot action, and
//! one tick runs.

use vstd::prelude::*;
use vstd::string::StringExecFns;
use crate::actions::{Action, ActionV};
use crate::assoc::{assoc_get, assoc_set, lemma_get_first_found, lemma_get_some_iff,
    lemma_set_absent, lemma_set_found, lemma_set_unique, unique_keys};
use crate::error::{gerr, GameError, GameResult};
use crate::ingame::{spec_step, Ingame, IngameV};
use crate::response::channel_read;
use crate::strutil::{split_at_char, split_chars, str_copy, str_eq, trim, trim_spec};

verus! {

/// What a registered command does with the tokenized input line.
pub enum CommandKind {
    /// Always schedules a copy of the given action.
    Fixed(Action),
    /// Adds an exit from the player's room; takes the exit label and the
    /// target room id as arguments.
    AddExit,
    /// Renames the player's room; takes the new name as argument.
    RenameRoom,
}

impl CommandKind {
    /// Copy this command kind.
    pub fn dup(&self) -> (r: CommandKind)
        ensures
            r == self || (self matches CommandKind::Fixed(a) && r matches CommandKind::Fixed(b)
                && a@ == b@),
    {
        match self {
            CommandKind::Fixed(a) => CommandKind::Fixed(a.dup()),
            CommandKind::AddExit => CommandKind::AddExit,
            CommandKind::RenameRoom => CommandKind::RenameRoom,
        }
    }
}

/// The action a command yields on the given tokens, or the message shown
/// without advancing the tick.
pub open spec fn spec_command_eval(kind: CommandKind, tokens: Seq<Seq<char>>) -> Result<
    ActionV,
    Seq<char>,
> {
    match kind {
        CommandKind::Fixed(a) => Ok(a@),
        CommandKind::AddExit => {
            if tokens.len() < 3 {
                Err("Expected two arguments"@)
            } else {
                Ok(
                    ActionV::AddExit {
                        exit_name: trim_spec(tokens[1]),
                        room_id: trim_spec(tokens[2]),
                    },
                )
            }
        },
        CommandKind::RenameRoom => {
            if tokens.len() < 2 {
                Err("Expected one argument"@)
            } else {
                Ok(ActionV::RenameRoom { name: trim_spec(tokens[1]) })
            }
        },
    }
}

/// A command which is executed when the user types its keyword.
pub struct Command {
    /// User keyword.
    pub keyword: String,
    /// What runs when the user types the keyword.
    pub kind: CommandKind,
}

/// The view of a command table: keyword to command kind.
pub open spec fn commands_view(s: Seq<Command>) -> Seq<(Seq<char>, CommandKind)> {
    s.map_values(|c: Command| (c.keyword@, c.kind))
}

/// Index the view of a command table.
pub proof fn lemma_commands_view(s: Seq<Command>)
    ensures
        commands_view(s).len() == s.len(),
        forall|i: int|
            0 <= i < s.len() ==> #[trigger] commands_view(s)[i] == (s[i].keyword@, s[i].kind),
{
}

/// One step of the shell: look the first word up, evaluate the command,
/// schedule its action as a one-shot, run one tick, and read the "out" or
/// "err" channel back.
pub open spec fn spec_terminal_step(
    cmds: Seq<(Seq<char>, CommandKind)>,
    m: IngameV,
    input: Seq<char>,
) -> (IngameV, Result<Seq<char>, Seq<char>>) {
    let tokens = split_at_char(input, ' ');
    match assoc_get(cmds, trim_spec(tokens[0])) {
        None => (m, Err("Could not find command '"@ + trim_spec(tokens[0]) + "'\n"@)),
        Some(kind) => match spec_command_eval(kind, tokens) {
            Err(e) => (m, Err(e)),
            Ok(av) => {
                let m1 = IngameV {
                    actions: crate::actions::ActionsV {
                        one_shot: m.actions.one_shot.push(av),
                        ..m.actions
                    },
                    ..m
                };
                let m2 = spec_step(m1);
                let err = channel_read(m2.response, "err"@);
                if err.len() == 0 {
                    (m2, Ok(channel_read(m2.response, "out"@) + "\n"@))
                } else {
                    (m2, Err("Error: "@ + err + "\n"@))
                }
            },
        },
    }
}

/// Main terminal UI type.
pub struct Terminal {
    /// The main game engine.
    pub ingame: Ingame,
    /// The registered commands.
    pub commands: Vec<Command>,
    /// The prompt string.
    pub prompt: String,
}

impl Terminal {
    /// The runtime is sound and each keyword is registered once.
    pub open spec fn inv(&self) -> bool {
        self.ingame.inv() && unique_keys(self.commands())
    }

    /// The registered commands, by keyword.
    pub open spec fn commands(&self) -> Seq<(Seq<char>, CommandKind)> {
        commands_view(self.commands@)
    }

    /// Create a new terminal with the given Ingame.
    pub fn new(ingame: Ingame) -> (r: Self)
        requires
            ingame.inv(),
        ensures
            r.inv(),
            r@ == ingame@,
            r.commands() == Seq::<(Seq<char>, CommandKind)>::empty(),
            r.prompt@ == "> "@,
    {
        let r = Terminal { ingame, commands: Vec::new(), prompt: str_copy("> ") };
        proof {
            assert(commands_view(r.commands@) =~= Seq::<(Seq<char>, CommandKind)>::empty());
        }
        r
    }

    /// Add a new command to the terminal, replacing any command already
    /// registered under the same keyword.
    pub fn add_command(&mut self, command: Command)
        requires
            old(self).inv(),
        ensures
            final(self).inv(),
            final(self).commands() == assoc_set(
                old(self).commands(),
                command.keyword@,
                command.kind,
            ),
            final(self)@ == old(self)@,
    {
        let ghost entries = commands_view(self.commands@);
        proof {
            lemma_commands_view(self.commands@);
            lemma_set_unique(entries, command.keyword@, command.kind);
        }
        let n = self.commands.len();
        let mut i: usize = 0;
        while i < n
            invariant
                n == self.commands@.len(),
                i <= n,
                self.commands@ == old(self).commands@,
                self.ingame == old(self).ingame,
                self.prompt == old(self).prompt,
                old(self).inv(),
                entries == commands_view(self.commands@),
                unique_keys(entries),
                forall|j: int| 0 <= j < i ==> commands_view(self.commands@)[j].0
                    != command.keyword@,
            decreases n - i,
        {
            if str_eq(self.commands[i].keyword.as_str(), command.keyword.as_str()) {
                proof {
                    lemma_set_found(entries, command.keyword@, command.kind, i as int);
                }
                let ghost kw = command.keyword@;
                let ghost kd = command.kind;
                self.commands.set(i, command);
                proof {
                    lemma_commands_view(self.commands@);
                    assert(commands_view(self.commands@) =~= entries.update(i as int, (kw, kd)));
                }
                return ;
            }
            proof {
                assert(commands_view(self.commands@)[i as int].0
                    == self.commands@[i as int].keyword@);
            }
            i = i + 1;
        }
        proof {
            lemma_set_absent(entries, command.keyword@, command.kind);
        }
        let ghost kw = command.keyword@;
        let ghost kd = command.kind;
        self.commands.push(command);
        proof {
            lemma_commands_view(self.commands@);
            assert(commands_view(self.commands@) =~= entries.push((kw, kd)));
        }
    }

    /// Perform one step by executing a command line.
    ///
    /// Returns the "out" channel's text on success, and an error if the
    /// input produces one.
    pub fn step(&mut self, input: &str) -> (r: GameResult<String>)
        requires
            old(self).inv(),
        ensures
            final(self).inv(),
            final(self).commands() == old(self).commands(),
            final(self)@ == spec_terminal_step(old(self).commands(), old(self)@, input@).0,
            match (r, spec_terminal_step(old(self).commands(), old(self)@, input@).1) {
                (Ok(s), Ok(t)) => s@ == t,
                (Err(e), Err(m)) => e@ == m,
                _ => false,
            },
    {
        let ghost tokens_spec = split_at_char(input@, ' ');
        // Divide the input line into its tokens.
        let keywords: Vec<String> = split_chars(input, ' ');
        proof {
            crate::strutil::lemma_split_at_char_len(input@, ' ');
            assert(keywords.deep_view()[0] == keywords@[0]@);
        }
        let first = trim(keywords[0].as_str());
        // Look the command up by the first token.
        match self.find_command(first.as_str()) {
            None => {
                let mut msg = str_copy("Could not find command '");
                msg.append(first.as_str());
                msg.append("'\n");
                Err(GameError::new(msg.as_str()))
            },
            Some(kind) => {
                match eval_command(&kind, &keywords) {
                    Err(e) => Err(e),
                    Ok(action) => {
                        self.ingame.add_one_time_action(action);
                        self.ingame.step();
                        let has_err = {
                            let ingame_error = self.ingame.get_response("err");
                            !ingame_error.is_empty()
                        };
                        if !has_err {
                            let mut out = str_copy(self.ingame.get_response("out"));
                            out.append("\n");
                            Ok(out)
                        } else {
                            let mut msg = str_copy("Error: ");
                            msg.append(self.ingame.get_response("err"));
                            msg.append("\n");
                            Err(GameError::new(msg.as_str()))
                        }
                    },
                }
            },
        }
    }

    /// Look up the command registered under `keyword`.
    fn find_command(&self, keyword: &str) -> (r: Option<CommandKind>)
        ensures
            match r {
                Some(kind) => match assoc_get(self.commands(), keyword@) {
                    Some(k) => kind == k || (k matches CommandKind::Fixed(a) && kind
                        matches CommandKind::Fixed(b) && a@ == b@),
                    None => false,
                },
                None => assoc_get(self.commands(), keyword@) is None,
            },
    {
        proof {
            lemma_commands_view(self.commands@);
        }
        let n = self.commands.len();
        let mut i: usize = 0;
        while i < n
            invariant
                n == self.commands@.len(),
                i <= n,
                forall|j: int| 0 <= j < i ==> commands_view(self.commands@)[j].0 != keyword@,
            decreases n - i,
        {
            if str_eq(self.commands[i].keyword.as_str(), keyword) {
                proof {
                    lemma_get_first_found(commands_view(self.commands@), keyword@, i as int);
                }
                return Some(self.commands[i].kind.dup());
            }
            proof {
                assert(commands_view(self.commands@)[i as int].0
                    == self.commands@[i as int].keyword@);
            }
            i = i + 1;
        }
        proof {
            lemma_get_some_iff(commands_view(self.commands@), keyword@);
        }
        None
    }
}

impl View for Terminal {
    type V = IngameV;

    open spec fn view(&self) -> IngameV {
        self.ingame@
    }
}

/// Evaluate a command kind on the tokenized line.
fn eval_command(kind: &CommandKind, tokens: &Vec<String>) -> (r: Result<Action, GameError>)
    ensures
        match (r, spec_command_eval(*kind, tokens.deep_view())) {
            (Ok(a), Ok(av)) => a@ == av,
            (Err(e), Err(m)) => e@ == m,
            _ => false,
        },
{
    proof {
        assert(forall|j: int|
            0 <= j < tokens@.len() ==> tokens.deep_view()[j] == (#[trigger] tokens@[j])@);
    }
    match kind {
        CommandKind::Fixed(a) => Ok(a.dup()),
        CommandKind::AddExit => {
            if tokens.len() < 3 {
                Err(gerr("Expected two arguments"))
            } else {
                let exit_name = trim(tokens[1].as_str());
                let room_id = trim(tokens[2].as_str());
                Ok(Action::AddExit { exit_name, room_id })
            }
        },
        CommandKind::RenameRoom => {
            if tokens.len() < 2 {
                Err(gerr("Expected one argument"))
            } else {
                let name = trim(tokens[1].as_str());
                Ok(Action::RenameRoom { name })
            }
        },
    }
}

} // verus!

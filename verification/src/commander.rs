//! Commands that are run one after the other: how each is labelled, and how
//! a run announces the command it is about to start.
//!
//! What a command is, and how it is run, is left to the caller: the types
//! here carry it along as `C`.

use new_string_template::error::TemplateError;
use vstd::prelude::*;

verus! {

/// What `Template::render_string` makes of a template and the values given
/// under the keys; `None` where it fails.
pub uninterp spec fn rendered(
    template: Seq<char>,
    keys: Seq<Seq<char>>,
    values: Seq<Seq<char>>,
) -> Option<Seq<char>>;

/// Texts, each by its view.
pub open spec fn texts_view(texts: Seq<String>) -> Seq<Seq<char>> {
    texts.map_values(|text: String| text@)
}

/// `new_string_template::template::Template::render_string` on the template
/// that `Template::new` makes of `template`, with a map that holds each of
/// `values` under the key at its position in `keys`. Claims that the result
/// depends on nothing but the template, the keys and the values.
#[verifier::external_body]
fn render(template: &str, keys: &Vec<String>, values: &Vec<String>) -> (text: Result<
    String,
    TemplateError,
>)
    ensures
        match text {
            Ok(made) => rendered(template@, texts_view(keys@), texts_view(values@)) == Some(
                made@,
            ),
            Err(_) => rendered(template@, texts_view(keys@), texts_view(values@)) is None,
        },
{
    let data: std::collections::HashMap<String, String> =
        keys.iter().cloned().zip(values.iter().cloned()).collect();
    new_string_template::template::Template::new(template).render_string(&data)
}

/// The decimal digit of a number below ten.
pub open spec fn digit(value: nat) -> char {
    if value == 0 {
        '0'
    } else if value == 1 {
        '1'
    } else if value == 2 {
        '2'
    } else if value == 3 {
        '3'
    } else if value == 4 {
        '4'
    } else if value == 5 {
        '5'
    } else if value == 6 {
        '6'
    } else if value == 7 {
        '7'
    } else if value == 8 {
        '8'
    } else {
        '9'
    }
}

/// A number written in decimal digits.
pub open spec fn decimal(value: nat) -> Seq<char>
    decreases value,
{
    if value < 10 {
        seq![digit(value)]
    } else {
        decimal(value / 10).push(digit(value % 10))
    }
}

/// The decimal digit of a number below ten, as text.
fn digit_text(value: usize) -> (text: &'static str)
    requires
        value < 10,
    ensures
        text@ == seq![digit(value as nat)],
{
    proof {
        reveal_strlit("0");
        reveal_strlit("1");
        reveal_strlit("2");
        reveal_strlit("3");
        reveal_strlit("4");
        reveal_strlit("5");
        reveal_strlit("6");
        reveal_strlit("7");
        reveal_strlit("8");
        reveal_strlit("9");
    }
    if value == 0 {
        "0"
    } else if value == 1 {
        "1"
    } else if value == 2 {
        "2"
    } else if value == 3 {
        "3"
    } else if value == 4 {
        "4"
    } else if value == 5 {
        "5"
    } else if value == 6 {
        "6"
    } else if value == 7 {
        "7"
    } else if value == 8 {
        "8"
    } else {
        "9"
    }
}

/// Writes a number in decimal digits.
pub fn decimal_text(value: usize) -> (text: String)
    ensures
        text@ == decimal(value as nat),
    decreases value,
{
    if value < 10 {
        String::from_str(digit_text(value))
    } else {
        let mut text = decimal_text(value / 10);
        text.append(digit_text(value % 10));
        text
    }
}

/// The keys under which a label finds its values: the position of the
/// command in the run, the number of commands in the run, and the command's
/// name.
pub open spec fn label_keys() -> Seq<Seq<char>> {
    seq!["index"@, "total"@, "name"@]
}

/// The values that a label is rendered with.
pub open spec fn label_values(index: nat, total: nat, name: Seq<char>) -> Seq<Seq<char>> {
    seq![decimal(index), decimal(total), name]
}

/// The prefix that a command bears until it is told otherwise.
pub open spec fn default_prefix() -> Seq<char> {
    "[{ index }/{ total }]"@
}

/// The message that announces a command.
pub open spec fn default_message() -> Seq<char> {
    "Executing { name }"@
}

/// A command with the label it runs under.
#[derive(Debug)]
pub struct CommandToExecute<C> {
    name: String,
    command: C,
    verbose: bool,
    log_prefix: String,
    log_message: String,
}

/// What a `CommandToExecute` is in contracts.
pub struct CommandView<C> {
    pub name: Seq<char>,
    pub command: C,
    pub verbose: bool,
    pub log_prefix: Seq<char>,
    pub log_message: Seq<char>,
}

/// The two texts that announce a command.
#[derive(Debug, PartialEq, Eq)]
pub struct Announcement {
    pub prefix: String,
    pub message: String,
}

impl<C> View for CommandToExecute<C> {
    type V = CommandView<C>;

    closed spec fn view(&self) -> CommandView<C> {
        CommandView {
            name: self.name@,
            command: self.command,
            verbose: self.verbose,
            log_prefix: self.log_prefix@,
            log_message: self.log_message@,
        }
    }
}

impl<C> CommandToExecute<C> {
    /// The command without a name, quiet, with the default prefix and
    /// message.
    pub fn new(command: C) -> (made: Self)
        ensures
            made@ == (CommandView {
                name: Seq::<char>::empty(),
                command,
                verbose: false,
                log_prefix: default_prefix(),
                log_message: default_message(),
            }),
    {
        CommandToExecute {
            name: String::new(),
            command,
            verbose: false,
            log_prefix: String::from_str("[{ index }/{ total }]"),
            log_message: String::from_str("Executing { name }"),
        }
    }

    /// The command under this name.
    pub fn with_name(self, name: &str) -> (made: Self)
        ensures
            made@ == (CommandView { name: name@, ..self@ }),
    {
        CommandToExecute {
            name: String::from_str(name),
            command: self.command,
            verbose: self.verbose,
            log_prefix: self.log_prefix,
            log_message: self.log_message,
        }
    }

    /// The command, verbose or quiet.
    pub fn with_verbose(self, verbose: bool) -> (made: Self)
        ensures
            made@ == (CommandView { verbose, ..self@ }),
    {
        CommandToExecute {
            name: self.name,
            command: self.command,
            verbose,
            log_prefix: self.log_prefix,
            log_message: self.log_message,
        }
    }

    /// The command with this template as its prefix.
    pub fn with_log_prefix(self, prefix: &str) -> (made: Self)
        ensures
            made@ == (CommandView { log_prefix: prefix@, ..self@ }),
    {
        CommandToExecute {
            name: self.name,
            command: self.command,
            verbose: self.verbose,
            log_prefix: String::from_str(prefix),
            log_message: self.log_message,
        }
    }

    /// The command without a prefix.
    pub fn without_log_prefix(self) -> (made: Self)
        ensures
            made@ == (CommandView { log_prefix: Seq::<char>::empty(), ..self@ }),
    {
        CommandToExecute {
            name: self.name,
            command: self.command,
            verbose: self.verbose,
            log_prefix: String::new(),
            log_message: self.log_message,
        }
    }

    /// The name of the command.
    pub fn name(&self) -> (name: &str)
        ensures
            name@ == self@.name,
    {
        self.name.as_str()
    }

    /// Whether the command is verbose.
    pub fn is_verbose(&self) -> (verbose: bool)
        ensures
            verbose == self@.verbose,
    {
        self.verbose
    }

    /// The command itself.
    pub fn command(&self) -> (command: &C)
        ensures
            *command == self@.command,
    {
        &self.command
    }

    /// The command itself, to be run; its label stays as it is.
    pub fn command_mut(&mut self) -> (command: &mut C)
        ensures
            *command == old(self)@.command,
            final(self)@ == (CommandView { command: *final(command), ..old(self)@ }),
    {
        &mut self.command
    }

    /// The texts that announce the command as number `index` of `total`:
    /// its prefix and its message, each rendered with the position, the
    /// total and the command's name.
    pub fn announce(&self, index: usize, total: usize) -> (texts: Result<
        Announcement,
        TemplateError,
    >)
        ensures
            match texts {
                Ok(made) => rendered(
                    self@.log_prefix,
                    label_keys(),
                    label_values(index as nat, total as nat, self@.name),
                ) == Some(made.prefix@) && rendered(
                    self@.log_message,
                    label_keys(),
                    label_values(index as nat, total as nat, self@.name),
                ) == Some(made.message@),
                Err(_) => rendered(
                    self@.log_prefix,
                    label_keys(),
                    label_values(index as nat, total as nat, self@.name),
                ) is None || rendered(
                    self@.log_message,
                    label_keys(),
                    label_values(index as nat, total as nat, self@.name),
                ) is None,
            },
    {
        let mut keys: Vec<String> = Vec::new();
        keys.push(String::from_str("index"));
        keys.push(String::from_str("total"));
        keys.push(String::from_str("name"));
        let mut values: Vec<String> = Vec::new();
        values.push(decimal_text(index));
        values.push(decimal_text(total));
        values.push(self.name.clone());
        assert(texts_view(keys@) == label_keys());
        assert(texts_view(values@) == label_values(index as nat, total as nat, self@.name));
        let prefix = match render(self.log_prefix.as_str(), &keys, &values) {
            Ok(prefix) => prefix,
            Err(error) => {
                return Err(error);
            },
        };
        let message = match render(self.log_message.as_str(), &keys, &values) {
            Ok(message) => message,
            Err(error) => {
                return Err(error);
            },
        };
        Ok(Announcement { prefix, message })
    }

    /// Whether the command runs behind a spinner: it does unless it is
    /// verbose or the spinner would be hidden.
    pub fn shows_spinner(&self, hidden: bool) -> (shown: bool)
        ensures
            shown == (!self@.verbose && !hidden),
    {
        !self.verbose && !hidden
    }
}

/// The line that announces a command where no spinner is shown: the
/// prefix, a space, the name, and three dots.
pub fn plain_line(prefix: &str, name: &str) -> (line: String)
    ensures
        line@ == prefix@ + seq![' '] + name@ + seq!['.', '.', '.'],
{
    proof {
        reveal_strlit(" ");
        reveal_strlit("...");
    }
    let mut line = String::from_str(prefix);
    line.append(" ");
    line.append(name);
    line.append("...");
    line
}

/// The commands of one run, in the order in which they are to run.
#[derive(Debug)]
pub struct CommandsToExecute<C> {
    commands: Vec<CommandToExecute<C>>,
}

impl<C> View for CommandsToExecute<C> {
    type V = Seq<CommandView<C>>;

    closed spec fn view(&self) -> Seq<CommandView<C>> {
        self.commands@.map_values(|command: CommandToExecute<C>| command@)
    }
}

impl<C> CommandsToExecute<C> {
    /// A run without commands.
    pub fn new() -> (run: Self)
        ensures
            run@ == Seq::<CommandView<C>>::empty(),
    {
        CommandsToExecute { commands: Vec::new() }
    }

    /// The run with one more command at its end.
    pub fn add(self, command: CommandToExecute<C>) -> (run: Self)
        ensures
            run@ == self@.push(command@),
    {
        let mut commands = self.commands;
        commands.push(command);
        CommandsToExecute { commands }
    }

    /// The number of commands.
    pub fn len(&self) -> (count: usize)
        ensures
            count == self@.len(),
    {
        self.commands.len()
    }

    /// The texts that announce the command at `position`, counted from
    /// zero, as the next of the run: it is announced as number
    /// `position + 1` of as many as the run holds. There is nothing to
    /// announce beyond the last command.
    pub fn announce(&self, position: usize) -> (texts: Option<Result<Announcement, TemplateError>>)
        ensures
            texts is Some <==> position < self@.len(),
            texts matches Some(Ok(made)) ==> rendered(
                self@[position as int].log_prefix,
                label_keys(),
                label_values((position + 1) as nat, self@.len(), self@[position as int].name),
            ) == Some(made.prefix@) && rendered(
                self@[position as int].log_message,
                label_keys(),
                label_values((position + 1) as nat, self@.len(), self@[position as int].name),
            ) == Some(made.message@),
            texts matches Some(Err(_)) ==> rendered(
                self@[position as int].log_prefix,
                label_keys(),
                label_values((position + 1) as nat, self@.len(), self@[position as int].name),
            ) is None || rendered(
                self@[position as int].log_message,
                label_keys(),
                label_values((position + 1) as nat, self@.len(), self@[position as int].name),
            ) is None,
    {
        if position < self.commands.len() {
            Some(self.commands[position].announce(position + 1, self.commands.len()))
        } else {
            None
        }
    }

    /// The command at `position`, counted from zero, to be run; the other
    /// commands stay as they are.
    pub fn command_at(&mut self, position: usize) -> (command: Option<&mut CommandToExecute<C>>)
        ensures
            command is Some <==> position < old(self)@.len(),
            command matches Some(found) ==> (*found)@ == old(self)@[position as int] && final(self)@
                == old(self)@.update(position as int, (*final(found))@),
            command is None ==> final(self)@ == old(self)@,
    {
        if position < self.commands.len() {
            let found = &mut self.commands[position];
            Some(found)
        } else {
            None
        }
    }

    /// The commands, handed out to be run.
    pub fn into_commands(self) -> (commands: Vec<CommandToExecute<C>>)
        ensures
            commands@.map_values(|command: CommandToExecute<C>| command@) == self@,
    {
        self.commands
    }
}

} // verus!

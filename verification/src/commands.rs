//! The commands that the program knows, by namespace. A command's handler is
//! a number that means something to whoever registers it; the registry finds
//! the handler and leaves calling it to the caller.

use vstd::prelude::*;

verus! {

/// A command: its name and the number of its handler.
#[derive(Debug)]
pub struct Command {
    pub name: String,
    pub handler: usize,
}

/// A command as mathematics.
pub struct CommandEntry {
    pub name: Seq<char>,
    pub handler: usize,
}

impl View for Command {
    type V = CommandEntry;

    open spec fn view(&self) -> CommandEntry {
        CommandEntry { name: self.name@, handler: self.handler }
    }
}

#[derive(Debug)]
struct CommandSpace {
    name: String,
    commands: Vec<Command>,
}

/// A namespace and its commands, as mathematics.
pub struct SpaceView {
    pub name: Seq<char>,
    pub commands: Seq<CommandEntry>,
}

impl View for CommandSpace {
    type V = SpaceView;

    closed spec fn view(&self) -> SpaceView {
        SpaceView {
            name: self.name@,
            commands: Seq::new(self.commands@.len(), |i: int| self.commands@[i]@),
        }
    }
}

#[derive(Debug)]
pub struct CommandHandler {
    spaces: Vec<CommandSpace>,
}

impl View for CommandHandler {
    type V = Seq<SpaceView>;

    closed spec fn view(&self) -> Seq<SpaceView> {
        Seq::new(self.spaces@.len(), |i: int| self.spaces@[i]@)
    }
}

/// The index of the first namespace called `name`, or the number of
/// namespaces if there is none.
pub open spec fn space_index(spaces: Seq<SpaceView>, name: Seq<char>) -> int
    decreases spaces.len(),
{
    if spaces.len() == 0 {
        0
    } else if spaces[0].name == name {
        0
    } else {
        1 + space_index(spaces.drop_first(), name)
    }
}

/// The index of the first command called `name`, or the number of commands
/// if there is none.
pub open spec fn command_index(commands: Seq<CommandEntry>, name: Seq<char>) -> int
    decreases commands.len(),
{
    if commands.len() == 0 {
        0
    } else if commands[0].name == name {
        0
    } else {
        1 + command_index(commands.drop_first(), name)
    }
}

/// What `space_index` finds: an index with the name and none before it, or
/// the length if no namespace has the name.
pub proof fn lemma_space_index(spaces: Seq<SpaceView>, name: Seq<char>, k: int)
    requires
        0 <= k <= spaces.len(),
        forall|j: int| 0 <= j < k ==> (#[trigger] spaces[j]).name != name,
        k < spaces.len() ==> spaces[k].name == name,
    ensures
        space_index(spaces, name) == k,
    decreases spaces.len(),
{
    if spaces.len() > 0 && k > 0 {
        let rest = spaces.drop_first();
        assert(spaces[0].name != name);
        assert forall|j: int| 0 <= j < k - 1 implies (#[trigger] rest[j]).name != name by {
            assert(rest[j] == spaces[j + 1]);
        }
        lemma_space_index(rest, name, k - 1);
    }
}

pub proof fn lemma_command_index(commands: Seq<CommandEntry>, name: Seq<char>, k: int)
    requires
        0 <= k <= commands.len(),
        forall|j: int| 0 <= j < k ==> (#[trigger] commands[j]).name != name,
        k < commands.len() ==> commands[k].name == name,
    ensures
        command_index(commands, name) == k,
    decreases commands.len(),
{
    if commands.len() > 0 && k > 0 {
        let rest = commands.drop_first();
        assert(commands[0].name != name);
        assert forall|j: int| 0 <= j < k - 1 implies (#[trigger] rest[j]).name != name by {
            assert(rest[j] == commands[j + 1]);
        }
        lemma_command_index(rest, name, k - 1);
    }
}

impl CommandHandler {
    /// The registry with the global namespace `@` and no commands.
    pub fn new() -> (h: CommandHandler)
        ensures
            h@ == seq![SpaceView { name: "@"@, commands: Seq::empty() }],
    {
        let mut spaces: Vec<CommandSpace> = Vec::new();
        let space = CommandSpace { name: "@".to_owned(), commands: Vec::new() };
        assert(space@.commands =~= Seq::empty());
        spaces.push(space);
        let h = CommandHandler { spaces };
        assert(h@ =~= seq![SpaceView { name: "@"@, commands: Seq::empty() }]);
        h
    }

    /// The index of the first namespace called `namespace`.
    fn find_space(&self, namespace: &String) -> (k: usize)
        ensures
            k == space_index(self@, namespace@),
            k <= self@.len(),
            k < self@.len() ==> self@[k as int].name == namespace@,
    {
        let mut k: usize = 0;
        while k < self.spaces.len()
            invariant
                k <= self.spaces.len(),
                forall|j: int| 0 <= j < k ==> (#[trigger] self@[j]).name != namespace@,
            decreases self.spaces.len() - k,
        {
            if self.spaces[k].name == *namespace {
                proof {
                    lemma_space_index(self@, namespace@, k as int);
                }
                return k;
            }
            k += 1;
        }
        proof {
            lemma_space_index(self@, namespace@, k as int);
        }
        k
    }

    /// The commands of the first namespace called `namespace`.
    pub fn get_commands(&self, namespace: &str) -> (r: Option<&Vec<Command>>)
        ensures
            r.is_some() == (space_index(self@, namespace@) < self@.len()),
            r matches Some(commands) ==> commands@.len() == self@[space_index(
                self@,
                namespace@,
            )].commands.len() && forall|i: int|
                0 <= i < commands@.len() ==> (#[trigger] commands@[i])@ == self@[space_index(
                    self@,
                    namespace@,
                )].commands[i],
    {
        let key = namespace.to_owned();
        let k = self.find_space(&key);
        if k < self.spaces.len() {
            Some(&self.spaces[k].commands)
        } else {
            None
        }
    }

    /// Adds an empty namespace called `namespace`, unless there is one.
    pub fn register_command_space(&mut self, namespace: &str)
        ensures
            final(self)@ == (if space_index(old(self)@, namespace@) < old(self)@.len() {
                old(self)@
            } else {
                old(self)@.push(SpaceView { name: namespace@, commands: Seq::empty() })
            }),
    {
        let key = namespace.to_owned();
        let k = self.find_space(&key);
        if k >= self.spaces.len() {
            let space = CommandSpace { name: key, commands: Vec::new() };
            assert(space@.commands =~= Seq::empty());
            self.spaces.push(space);
            assert(self@ =~= old(self)@.push(
                SpaceView { name: namespace@, commands: Seq::empty() },
            ));
        }
    }

    /// Adds a command to the first namespace called `namespace`, behind its
    /// other commands; without such a namespace, adds one with this command.
    pub fn register_command(&mut self, command: Command, namespace: &str)
        ensures
            final(self)@ == (if space_index(old(self)@, namespace@) < old(self)@.len() {
                let k = space_index(old(self)@, namespace@);
                old(self)@.update(
                    k,
                    SpaceView { commands: old(self)@[k].commands.push(command@), ..old(self)@[k] },
                )
            } else {
                old(self)@.push(SpaceView { name: namespace@, commands: seq![command@] })
            }),
    {
        let ghost before = self@;
        let key = namespace.to_owned();
        let k = self.find_space(&key);
        if k < self.spaces.len() {
            let ghost space = self.spaces@[k as int]@;
            self.spaces[k].commands.push(command);
            proof {
                assert(self.spaces@[k as int]@.commands =~= space.commands.push(command@));
                assert(self@ =~= before.update(
                    k as int,
                    SpaceView { commands: before[k as int].commands.push(command@), ..before[k as int] },
                ));
            }
        } else {
            let mut commands: Vec<Command> = Vec::new();
            commands.push(command);
            let space = CommandSpace { name: key, commands };
            assert(space@.commands =~= seq![command@]);
            self.spaces.push(space);
            assert(self@ =~= before.push(SpaceView { name: namespace@, commands: seq![command@] }));
        }
    }

    /// The handler of the first command called `command_name` in the first
    /// namespace called `namespace`, for the caller to call.
    pub fn handle_command(&self, namespace: &str, command_name: &str) -> (handler: Option<usize>)
        ensures
            handler == (if space_index(self@, namespace@) < self@.len() && command_index(
                self@[space_index(self@, namespace@)].commands,
                command_name@,
            ) < self@[space_index(self@, namespace@)].commands.len() {
                Some(
                    self@[space_index(self@, namespace@)].commands[command_index(
                        self@[space_index(self@, namespace@)].commands,
                        command_name@,
                    )].handler,
                )
            } else {
                None
            }),
    {
        let key = namespace.to_owned();
        let name = command_name.to_owned();
        let k = self.find_space(&key);
        if k >= self.spaces.len() {
            return None;
        }
        let commands = &self.spaces[k].commands;
        let ghost entries = self@[k as int].commands;
        let mut i: usize = 0;
        while i < commands.len()
            invariant
                i <= commands.len(),
                k == space_index(self@, namespace@),
                k < self@.len(),
                entries == self@[k as int].commands,
                name@ == command_name@,
                commands@.len() == entries.len(),
                forall|j: int| 0 <= j < commands@.len() ==> (#[trigger] commands@[j])@ == entries[j],
                forall|j: int| 0 <= j < i ==> (#[trigger] entries[j]).name != name@,
            decreases commands.len() - i,
        {
            if commands[i].name == name {
                proof {
                    lemma_command_index(entries, name@, i as int);
                }
                return Some(commands[i].handler);
            }
            i += 1;
        }
        proof {
            lemma_command_index(entries, name@, i as int);
        }
        None
    }
}

} // verus!

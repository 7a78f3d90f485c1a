//! The script interpreter.
//!
//! A script is a text of lines: `*name` is a label, `@name params..` a
//! command, `speaker: text` a line of dialogue; empty lines and lines
//! starting with `#` are skipped.  Running a script executes commands from
//! the current position until one that waits for the reader (dialogue or a
//! choice) or ends the script; `@jump name` continues just after the label
//! `name`.
//!
//! Handlers are registered per command kind by id.  The engine decides
//! which handler is called with which command, in order, and queues these
//! calls; whoever owns the handlers takes the queue and makes the calls.
use vstd::prelude::*;
use crate::strmap::{StrMap, map_of, lemma_map_of_contains, lemma_map_of_value};
use crate::text::{
    views, to_chars, lines, lines_of, trim, trim_of, slice_range, string_of, split_whitespace,
    split_ws, find_char, first_index_of,
};
use crate::vn::command::{
    Command, CommandType, command_view, command_type_of, command_type_for, type_index, type_slot,
};

verus! {

/// A command by kind and parameter characters.
pub type CommandView = (CommandType, Seq<Seq<char>>);

/// The command a trimmed, non-empty, non-comment line denotes, if any.
pub open spec fn command_of_line(line: Seq<char>) -> Option<CommandView> {
    if line.len() > 0 && line[0] == '*' {
        Some((CommandType::Label, seq![trim_of(line.subrange(1, line.len() as int))]))
    } else if line.len() > 0 && line[0] == '@' {
        let rest = line.subrange(1, line.len() as int);
        match first_index_of(rest, ' ') {
            Some(i) => Some(
                (
                    command_type_of(rest.subrange(0, i)),
                    split_ws(rest.subrange(i + 1, rest.len() as int)),
                ),
            ),
            None => Some((command_type_of(rest), seq![])),
        }
    } else {
        match first_index_of(line, ':') {
            Some(p) => Some(
                (
                    CommandType::Dialogue,
                    seq![trim_of(line.subrange(0, p)), trim_of(line.subrange(p + 1, line.len() as int))],
                ),
            ),
            None => None,
        }
    }
}

/// A trimmed line that carries no command: empty, or a comment.
pub open spec fn is_blank_or_comment(l: Seq<char>) -> bool {
    l.len() == 0 || l[0] == '#'
}

/// The commands of script lines, in order.
pub open spec fn commands_of_lines(ls: Seq<Seq<char>>) -> Seq<CommandView>
    decreases ls.len(),
{
    if ls.len() == 0 {
        seq![]
    } else {
        let prev = commands_of_lines(ls.drop_last());
        let l = trim_of(ls.last());
        if is_blank_or_comment(l) {
            prev
        } else {
            match command_of_line(l) {
                Some(c) => prev.push(c),
                None => prev,
            }
        }
    }
}

/// The commands of a script text.
pub open spec fn script_commands(content: Seq<char>) -> Seq<CommandView> {
    commands_of_lines(lines_of(content))
}

/// Each label's name mapped to the position of its last occurrence.
pub open spec fn labels_of(cs: Seq<CommandView>) -> Map<Seq<char>, usize>
    decreases cs.len(),
{
    if cs.len() == 0 {
        Map::empty()
    } else {
        let m = labels_of(cs.drop_last());
        let c = cs.last();
        if c.0 == CommandType::Label && c.1.len() > 0 {
            m.insert(c.1[0], (cs.len() - 1) as usize)
        } else {
            m
        }
    }
}

/// Kinds that wait for the reader.
pub open spec fn waits_at(t: CommandType) -> bool {
    t == CommandType::Dialogue || t == CommandType::Choice
}

/// The kinds of commands.
pub open spec fn kinds(cs: Seq<CommandView>) -> Seq<CommandType> {
    cs.map_values(|c: CommandView| c.0)
}

/// Where the command at `k` sends execution when it is a jump to a label
/// of the script: just after that label.
pub open spec fn jump_target(cs: Seq<CommandView>, labels: Map<Seq<char>, usize>, k: int) -> Option<int> {
    if cs[k].0 == CommandType::Jump && cs[k].1.len() > 0 && labels.contains_key(cs[k].1[0]) {
        Some(labels[cs[k].1[0]] + 1)
    } else {
        None
    }
}

/// Handler calls for executing commands `from..to` in order: each command
/// with each handler registered for its kind, in registration order.
pub open spec fn calls(hs: Seq<Seq<u64>>, types: Seq<CommandType>, from: int, to: int) -> Seq<
    (usize, u64),
>
    decreases to - from,
{
    if to <= from {
        seq![]
    } else {
        let k = to - 1;
        let ids = hs[type_index(types[k])];
        calls(hs, types, from, k) + Seq::new(ids.len(), |m: int| (k as usize, ids[m]))
    }
}

/// Interpreter of visual novel scripts.
pub struct ScriptEngine {
    commands: Vec<Command>,
    labels: StrMap,
    handlers: Vec<Vec<u64>>,
    current_index: usize,
    running: bool,
    paused: bool,
    waiting_for_input: bool,
    dispatched: Vec<(usize, u64)>,
}

impl ScriptEngine {
    /// The commands.
    pub closed spec fn commands_view(&self) -> Seq<CommandView> {
        self.commands@.map_values(|c: Command| command_view(c))
    }

    /// The kinds of the commands.
    pub closed spec fn types(&self) -> Seq<CommandType> {
        self.commands@.map_values(|c: Command| c.command_type)
    }

    /// Label positions.
    pub closed spec fn labels_view(&self) -> Map<Seq<char>, usize> {
        self.labels@
    }

    /// Handler ids per kind, indexed by `type_index`.
    pub closed spec fn handler_lists(&self) -> Seq<Seq<u64>> {
        self.handlers@.map_values(|v: Vec<u64>| v@)
    }

    /// Handler ids registered for a kind, in registration order.
    pub open spec fn handler_ids(&self, t: CommandType) -> Seq<u64> {
        self.handler_lists()[type_index(t)]
    }

    /// Position of the current command.
    pub closed spec fn index(&self) -> nat {
        self.current_index as nat
    }

    /// Whether the script is running.
    pub closed spec fn running_view(&self) -> bool {
        self.running
    }

    /// Whether execution is paused.
    pub closed spec fn paused_view(&self) -> bool {
        self.paused
    }

    /// Whether the engine waits for the reader.
    pub closed spec fn waiting_view(&self) -> bool {
        self.waiting_for_input
    }

    /// Handler calls decided and not yet taken.
    pub closed spec fn dispatched_view(&self) -> Seq<(usize, u64)> {
        self.dispatched@
    }

    /// Well-formedness: the labels are those of the commands and there is
    /// a handler list per kind.
    pub closed spec fn wf(&self) -> bool {
        &&& self.labels.wf()
        &&& self.labels@ == labels_of(self.commands_view())
        &&& self.handlers@.len() == 12
        &&& self.types().len() == self.commands@.len()
    }

    /// Position, running flag, waiting flag and queued calls.
    pub open spec fn status(&self) -> (int, bool, bool, Seq<(usize, u64)>) {
        (self.index() as int, self.running_view(), self.waiting_view(), self.dispatched_view())
    }

    /// Same script, labels, handlers and pause flag.
    pub open spec fn same_script(&self, other: &Self) -> bool {
        &&& other.commands_view() == self.commands_view()
        &&& other.types() == self.types()
        &&& other.labels_view() == self.labels_view()
        &&& other.handler_lists() == self.handler_lists()
    }
}

/// Running from position `i` with `fuel` jumps left: each command reached
/// is handed to its kind's handlers; a command that waits (dialogue,
/// choice) stops the run waiting, `@end` stops it, a jump to a known label
/// continues just after the label, and any other command continues with
/// the next one; past the last command the run stops.  A jump reached with
/// no jump left stops the run.  Gives where the run stopped, whether it
/// stopped waiting, and the handler calls in order.
pub open spec fn run_from(
    cs: Seq<CommandView>,
    labels: Map<Seq<char>, usize>,
    hs: Seq<Seq<u64>>,
    i: int,
    fuel: nat,
) -> (int, bool, Seq<(usize, u64)>)
    decreases fuel, cs.len() - i,
{
    if i < 0 || i >= cs.len() {
        (i, false, seq![])
    } else {
        let c = calls(hs, kinds(cs), i, i + 1);
        if waits_at(cs[i].0) {
            (i, true, c)
        } else if cs[i].0 == CommandType::End {
            (i, false, c)
        } else {
            match jump_target(cs, labels, i) {
                Some(j) => if fuel == 0 {
                    (i, false, c)
                } else {
                    let r = run_from(cs, labels, hs, j, (fuel - 1) as nat);
                    (r.0, r.1, c + r.2)
                },
                None => {
                    let r = run_from(cs, labels, hs, i + 1, fuel);
                    (r.0, r.1, c + r.2)
                },
            }
        }
    }
}

/// Running the script `cs` from position `i` (see `run_from`).  A run may
/// follow as many jumps as the script has commands: a run that reaches one
/// more jump has jumped to some place twice and would repeat forever, and
/// is stopped.  Gives the new position, running and waiting flags and
/// queued calls.
pub open spec fn run(
    cs: Seq<CommandView>,
    labels: Map<Seq<char>, usize>,
    hs: Seq<Seq<u64>>,
    i: int,
    running: bool,
    waiting: bool,
    d: Seq<(usize, u64)>,
) -> (int, bool, bool, Seq<(usize, u64)>) {
    let r = run_from(cs, labels, hs, i, cs.len());
    (r.0, running && r.1, waiting || r.1, d + r.2)
}

/// In a script with its own label table, a run from a position within the
/// script stops within it or at its end; when it stops waiting, it stops at
/// a command that waits, and when it stops otherwise within the script, it
/// stops at `@end` or at a jump to a known label.
pub proof fn lemma_run_stops(cs: Seq<CommandView>, hs: Seq<Seq<u64>>, i: int, fuel: nat)
    requires
        cs.len() <= usize::MAX,
        0 <= i <= cs.len(),
    ensures
        ({
            let r = run_from(cs, labels_of(cs), hs, i, fuel);
            &&& 0 <= r.0 <= cs.len()
            &&& r.1 ==> r.0 < cs.len() && waits_at(cs[r.0].0)
            &&& !r.1 && r.0 < cs.len() ==> cs[r.0].0 == CommandType::End || jump_target(
                cs,
                labels_of(cs),
                r.0,
            ) is Some
        }),
    decreases fuel, cs.len() - i,
{
    if i < cs.len() && !waits_at(cs[i].0) && cs[i].0 != CommandType::End {
        match jump_target(cs, labels_of(cs), i) {
            Some(j) => {
                if fuel > 0 {
                    lemma_labels_of(cs);
                    lemma_run_stops(cs, hs, j, (fuel - 1) as nat);
                }
            },
            None => {
                lemma_run_stops(cs, hs, i + 1, fuel);
            },
        }
    }
}

/// The parameters of a line, as strings.
fn strings_of(words: &Vec<Vec<char>>) -> (r: Vec<String>)
    ensures
        views(r@) == words.deep_view(),
{
    let mut r: Vec<String> = Vec::new();
    let mut i: usize = 0;
    while i < words.len()
        invariant
            i <= words@.len(),
            views(r@) == words.deep_view().take(i as int),
        decreases words.len() - i,
    {
        let ghost prev = views(r@);
        let w = string_of(words[i].as_slice());
        assert(words.deep_view()[i as int] =~= words@[i as int]@);
        r.push(w);
        assert(views(r@) =~= prev.push(w@));
        assert(views(r@) =~= words.deep_view().take(i + 1));
        i += 1;
    }
    assert(words.deep_view().take(words@.len() as int) =~= words.deep_view());
    r
}

/// The command of a trimmed script line, if it denotes one.
pub fn parse_line(line: &[char]) -> (r: Option<Command>)
    ensures
        match command_of_line(line@) {
            Some(c) => r matches Some(cmd) && command_view(cmd) == c,
            None => r is None,
        },
{
    let n = line.len();
    if n > 0 && line[0] == '*' {
        let rest = slice_range(line, 1, n);
        let name = string_of(trim(rest.as_slice()).as_slice());
        let params = vec![name];
        assert(views(params@) =~= seq![trim_of(line@.subrange(1, n as int))]);
        return Some(Command::new(CommandType::Label, params));
    }
    if n > 0 && line[0] == '@' {
        let rest = slice_range(line, 1, n);
        let m = rest.len();
        return match find_char(rest.as_slice(), ' ') {
            Some(i) => {
                let name = string_of(slice_range(rest.as_slice(), 0, i).as_slice());
                let tail = slice_range(rest.as_slice(), i + 1, m);
                let words = split_whitespace(tail.as_slice());
                let params = strings_of(&words);
                Some(Command::new(command_type_for(name.as_str()), params))
            },
            None => {
                let name = string_of(rest.as_slice());
                let params: Vec<String> = Vec::new();
                assert(views(params@) =~= Seq::<Seq<char>>::empty());
                Some(Command::new(command_type_for(name.as_str()), params))
            },
        };
    }
    match find_char(line, ':') {
        Some(p) => {
            let speaker = string_of(trim(slice_range(line, 0, p).as_slice()).as_slice());
            let text = string_of(trim(slice_range(line, p + 1, n).as_slice()).as_slice());
            let params = vec![speaker, text];
            assert(views(params@) =~= seq![
                trim_of(line@.subrange(0, p as int)),
                trim_of(line@.subrange(p + 1, n as int)),
            ]);
            Some(Command::new(CommandType::Dialogue, params))
        },
        None => None,
    }
}

impl ScriptEngine {
    /// An engine with no script, no handlers, not running.
    pub fn new() -> (r: Self)
        ensures
            r.wf(),
            r.commands_view().len() == 0,
            r.labels_view() == Map::<Seq<char>, usize>::empty(),
            forall|t: CommandType| r.handler_ids(t).len() == 0,
            r.index() == 0,
            !r.running_view(),
            !r.paused_view(),
            !r.waiting_view(),
            r.dispatched_view().len() == 0,
    {
        let mut handlers: Vec<Vec<u64>> = Vec::new();
        let mut k: usize = 0;
        while k < 12
            invariant
                k <= 12,
                handlers@.len() == k,
                forall|i: int| 0 <= i < k ==> (#[trigger] handlers@[i])@.len() == 0,
            decreases 12 - k,
        {
            handlers.push(Vec::new());
            k += 1;
        }
        let r = ScriptEngine {
            commands: Vec::new(),
            labels: StrMap::new(),
            handlers,
            current_index: 0,
            running: false,
            paused: false,
            waiting_for_input: false,
            dispatched: Vec::new(),
        };
        assert(r.commands_view() =~= Seq::<CommandView>::empty());
        assert(r.types() =~= Seq::<CommandType>::empty());
        assert forall|t: CommandType| r.handler_ids(t).len() == 0 by {
            assert(r.handler_lists()[type_index(t)] == handlers@[type_index(t)]@);
        }
        r
    }

    /// Registers handler `handler` for commands of kind `command_type`,
    /// after those already registered for it.
    pub fn set_command_handler(&mut self, command_type: CommandType, handler: u64)
        requires
            old(self).wf(),
        ensures
            final(self).wf(),
            forall|t: CommandType|
                #[trigger] final(self).handler_ids(t) == if t == command_type {
                    old(self).handler_ids(t).push(handler)
                } else {
                    old(self).handler_ids(t)
                },
            final(self).commands_view() == old(self).commands_view(),
            final(self).types() == old(self).types(),
            final(self).labels_view() == old(self).labels_view(),
            final(self).index() == old(self).index(),
            final(self).running_view() == old(self).running_view(),
            final(self).paused_view() == old(self).paused_view(),
            final(self).waiting_view() == old(self).waiting_view(),
            final(self).dispatched_view() == old(self).dispatched_view(),
    {
        let s = type_slot(command_type);
        let mut list = self.handlers[s].clone();
        let ghost before = self.handlers@[s as int]@;
        assert(list@ == before);
        list.push(handler);
        self.handlers.set(s, list);
        proof {
            assert forall|t: CommandType| #[trigger] self.handler_ids(t) == if t == command_type {
                old(self).handler_ids(t).push(handler)
            } else {
                old(self).handler_ids(t)
            } by {
                if t != command_type {
                    assert(type_index(t) != type_index(command_type));
                }
            }
        }
    }

    /// Removes every handler of kind `command_type`.
    pub fn clear_handlers(&mut self, command_type: CommandType)
        requires
            old(self).wf(),
        ensures
            final(self).wf(),
            forall|t: CommandType|
                #[trigger] final(self).handler_ids(t) == if t == command_type {
                    Seq::<u64>::empty()
                } else {
                    old(self).handler_ids(t)
                },
            final(self).commands_view() == old(self).commands_view(),
            final(self).types() == old(self).types(),
            final(self).labels_view() == old(self).labels_view(),
            final(self).index() == old(self).index(),
            final(self).running_view() == old(self).running_view(),
            final(self).paused_view() == old(self).paused_view(),
            final(self).waiting_view() == old(self).waiting_view(),
            final(self).dispatched_view() == old(self).dispatched_view(),
    {
        let s = type_slot(command_type);
        self.handlers.set(s, Vec::new());
        proof {
            assert forall|t: CommandType| #[trigger] self.handler_ids(t) == if t == command_type {
                Seq::<u64>::empty()
            } else {
                old(self).handler_ids(t)
            } by {
                if t != command_type {
                    assert(type_index(t) != type_index(command_type));
                }
            }
        }
    }

    /// Queues the calls of command `k`'s handlers.
    fn dispatch(&mut self, k: usize)
        requires
            old(self).wf(),
            k < old(self).commands@.len(),
        ensures
            final(self).wf(),
            final(self).commands_view() == old(self).commands_view(),
            final(self).types() == old(self).types(),
            final(self).labels_view() == old(self).labels_view(),
            final(self).handler_lists() == old(self).handler_lists(),
            final(self).index() == old(self).index(),
            final(self).running_view() == old(self).running_view(),
            final(self).paused_view() == old(self).paused_view(),
            final(self).waiting_view() == old(self).waiting_view(),
            final(self).dispatched_view() == old(self).dispatched_view() + calls(
                old(self).handler_lists(),
                old(self).types(),
                k as int,
                k + 1,
            ),
    {
        let s = type_slot(self.commands[k].command_type);
        proof {
            assert(self.types()[k as int] == self.commands@[k as int].command_type);
        }
        let ghost ids = self.handlers@[s as int]@;
        let ghost before = self.dispatched@;
        let mut m: usize = 0;
        let n = self.handlers[s].len();
        while m < n
            invariant
                self.wf(),
                s < 12,
                n == ids.len(),
                ids == self.handlers@[s as int]@,
                m <= n,
                self.commands_view() == old(self).commands_view(),
                self.types() == old(self).types(),
                self.labels_view() == old(self).labels_view(),
                self.handler_lists() == old(self).handler_lists(),
                self.current_index == old(self).current_index,
                self.running == old(self).running,
                self.paused == old(self).paused,
                self.waiting_for_input == old(self).waiting_for_input,
                self.dispatched@ == before + Seq::new(m as nat, |j: int| (k, ids[j])),
            decreases n - m,
        {
            let h = self.handlers[s][m];
            self.dispatched.push((k, h));
            assert(self.dispatched@ =~= before + Seq::new((m + 1) as nat, |j: int| (k, ids[j])));
            m += 1;
        }
        proof {
            let hs = old(self).handler_lists();
            let types = old(self).types();
            assert(hs[type_index(types[k as int])] == ids);
            assert(calls(hs, types, k as int, k as int) =~= Seq::<(usize, u64)>::empty());
            assert(calls(hs, types, k as int, k + 1) =~= Seq::new(ids.len(), |j: int| (k, ids[j])));
        }
    }

    /// The kinds are those of the command views.
    proof fn lemma_kinds(&self)
        ensures
            self.types() == kinds(self.commands_view()),
    {
        assert(self.types() =~= kinds(self.commands_view()));
    }

    /// Where the command at `k` jumps to, if it is a jump to a known label.
    fn jump_target_at(&self, k: usize) -> (r: Option<usize>)
        requires
            self.wf(),
            k < self.commands_view().len(),
        ensures
            match jump_target(self.commands_view(), self.labels_view(), k as int) {
                Some(j) => r == Some(j as usize) && j <= self.commands_view().len(),
                None => r is None,
            },
    {
        let n = self.commands.len();
        let c = &self.commands[k];
        proof {
            assert(command_view(*c) == self.commands_view()[k as int]);
        }
        if c.command_type == CommandType::Jump && c.params.len() > 0 {
            proof {
                assert(c.params@[0]@ == self.commands_view()[k as int].1[0]);
            }
            match self.labels.get(c.params[0].as_str()) {
                Some(p) => {
                    proof {
                        assert(self.commands_view().len() == n);
                        lemma_labels_of(self.commands_view());
                    }
                    assert(p < self.commands.len());
                    Some(p + 1)
                },
                None => None,
            }
        } else {
            None
        }
    }

    /// Runs from the current position (see `run`).
    fn execute_current(&mut self)
        requires
            old(self).wf(),
            old(self).index() <= old(self).commands_view().len(),
        ensures
            final(self).wf(),
            old(self).same_script(final(self)),
            final(self).paused_view() == old(self).paused_view(),
            final(self).status() == run(
                old(self).commands_view(),
                old(self).labels_view(),
                old(self).handler_lists(),
                old(self).index() as int,
                old(self).running_view(),
                old(self).waiting_view(),
                old(self).dispatched_view(),
            ),
    {
        let ghost cs = self.commands_view();
        let ghost labels = self.labels_view();
        let ghost hs = self.handler_lists();
        let ghost d0 = self.dispatched@;
        let ghost i0 = self.current_index as int;
        let n = self.commands.len();
        let mut fuel: usize = n;
        let ghost r0 = run_from(cs, labels, hs, i0, n as nat);
        proof {
            self.lemma_kinds();
        }
        loop
            invariant_except_break
                self.running == old(self).running,
                self.waiting_for_input == old(self).waiting_for_input,
                fuel <= n,
                self.current_index <= n,
                r0.0 == run_from(cs, labels, hs, self.current_index as int, fuel as nat).0,
                r0.1 == run_from(cs, labels, hs, self.current_index as int, fuel as nat).1,
                d0 + r0.2 == self.dispatched@ + run_from(
                    cs,
                    labels,
                    hs,
                    self.current_index as int,
                    fuel as nat,
                ).2,
            invariant
                self.wf(),
                n == cs.len(),
                cs == self.commands_view(),
                labels == self.labels_view(),
                hs == self.handler_lists(),
                self.types() == kinds(cs),
                old(self).same_script(self),
                self.paused == old(self).paused,
            ensures
                self.status() == (
                    r0.0,
                    old(self).running && r0.1,
                    old(self).waiting_for_input || r0.1,
                    d0 + r0.2,
                ),
            decreases fuel, n - self.current_index,
        {
            let k = self.current_index;
            if k >= n {
                proof {
                    assert(self.dispatched@ + Seq::<(usize, u64)>::empty() =~= self.dispatched@);
                }
                self.running = false;
                break;
            }
            let ghost rest = run_from(cs, labels, hs, k as int, fuel as nat);
            let ghost c = calls(hs, kinds(cs), k as int, k + 1);
            let t = self.commands[k].command_type;
            proof {
                assert(self.types()[k as int] == t);
                assert(kinds(cs)[k as int] == cs[k as int].0);
            }
            let ghost before = self.dispatched@;
            self.dispatch(k);
            if t == CommandType::Dialogue || t == CommandType::Choice {
                proof {
                    assert(rest == (k as int, true, c));
                    assert(self.dispatched@ =~= before + c);
                }
                self.waiting_for_input = true;
                break;
            } else if t == CommandType::End {
                proof {
                    assert(rest == (k as int, false, c));
                    assert(self.dispatched@ =~= before + c);
                }
                self.running = false;
                break;
            } else {
                match self.jump_target_at(k) {
                    Some(j) => {
                        if fuel == 0 {
                            proof {
                                assert(rest == (k as int, false, c));
                                assert(self.dispatched@ =~= before + c);
                            }
                            self.running = false;
                            break;
                        }
                        proof {
                            let r = run_from(cs, labels, hs, j as int, (fuel - 1) as nat);
                            assert(rest == (r.0, r.1, c + r.2));
                            assert(before + (c + r.2) =~= (before + c) + r.2);
                        }
                        fuel = fuel - 1;
                        self.current_index = j;
                    },
                    None => {
                        proof {
                            let r = run_from(cs, labels, hs, k + 1, fuel as nat);
                            assert(rest == (r.0, r.1, c + r.2));
                            assert(before + (c + r.2) =~= (before + c) + r.2);
                        }
                        self.current_index = k + 1;
                    },
                }
            }
        }
    }
}

/// A label command named `name`.
pub open spec fn is_label_named(c: CommandView, name: Seq<char>) -> bool {
    c.0 == CommandType::Label && c.1.len() > 0 && c.1[0] == name
}

/// The label table holds exactly the names of the label commands, each
/// mapped to the position of its last label command.
pub proof fn lemma_labels_of(cs: Seq<CommandView>)
    requires
        cs.len() <= usize::MAX,
    ensures
        forall|name: Seq<char>|
            #[trigger] labels_of(cs).contains_key(name) <==> exists|k: int|
                0 <= k < cs.len() && is_label_named(cs[k], name),
        forall|name: Seq<char>|
            #[trigger] labels_of(cs).contains_key(name) ==> {
                let k = labels_of(cs)[name] as int;
                &&& 0 <= k < cs.len()
                &&& is_label_named(cs[k], name)
                &&& forall|m: int| k < m < cs.len() ==> !is_label_named(#[trigger] cs[m], name)
            },
    decreases cs.len(),
{
    if cs.len() > 0 {
        let p = cs.drop_last();
        lemma_labels_of(p);
        assert forall|name: Seq<char>|
            #[trigger] labels_of(cs).contains_key(name) <==> exists|k: int|
                0 <= k < cs.len() && is_label_named(cs[k], name) by {
            if exists|k: int| 0 <= k < cs.len() && is_label_named(cs[k], name) {
                let k = choose|k: int| 0 <= k < cs.len() && is_label_named(cs[k], name);
                if k < cs.len() - 1 {
                    assert(p[k] == cs[k]);
                }
            }
            if labels_of(p).contains_key(name) {
                let k = choose|k: int| 0 <= k < p.len() && is_label_named(p[k], name);
                assert(cs[k] == p[k]);
            }
        }
        assert forall|name: Seq<char>| #[trigger] labels_of(cs).contains_key(name) implies {
            let k = labels_of(cs)[name] as int;
            &&& 0 <= k < cs.len()
            &&& is_label_named(cs[k], name)
            &&& forall|m: int| k < m < cs.len() ==> !is_label_named(#[trigger] cs[m], name)
        } by {
            let c = cs.last();
            if is_label_named(c, name) {
                assert(labels_of(cs) == labels_of(p).insert(c.1[0], (cs.len() - 1) as usize));
            } else {
                if c.0 == CommandType::Label && c.1.len() > 0 {
                    assert(labels_of(cs) == labels_of(p).insert(c.1[0], (cs.len() - 1) as usize));
                    assert(c.1[0] != name);
                } else {
                    assert(labels_of(cs) == labels_of(p));
                }
                assert(labels_of(p).contains_key(name));
                assert(labels_of(cs)[name] == labels_of(p)[name]);
                let k = labels_of(p)[name] as int;
                assert(cs[k] == p[k]);
                assert forall|m: int| k < m < cs.len() implies !is_label_named(#[trigger] cs[m], name) by {
                    if m < cs.len() - 1 {
                        assert(cs[m] == p[m]);
                    }
                }
            }
        }
    }
}

impl ScriptEngine {
    /// Replaces the script by the commands of `content` (see
    /// `script_commands`) and rebuilds the label table; the position goes
    /// back to the first command.
    pub fn parse_script(&mut self, content: &str)
        requires
            old(self).wf(),
        ensures
            final(self).wf(),
            final(self).commands_view() == script_commands(content@),
            final(self).labels_view() == labels_of(script_commands(content@)),
            final(self).index() == 0,
            final(self).handler_lists() == old(self).handler_lists(),
            final(self).running_view() == old(self).running_view(),
            final(self).paused_view() == old(self).paused_view(),
            final(self).waiting_view() == old(self).waiting_view(),
            final(self).dispatched_view() == old(self).dispatched_view(),
    {
        self.commands = Vec::new();
        self.labels = StrMap::new();
        self.current_index = 0;
        proof {
            assert(self.commands_view() =~= Seq::<CommandView>::empty());
            assert(self.types() =~= Seq::<CommandType>::empty());
        }
        let chars = to_chars(content);
        let ls = lines(chars.as_slice());
        let ghost lv = lines_of(content@);
        let mut i: usize = 0;
        while i < ls.len()
            invariant
                ls.deep_view() == lv,
                lv == lines_of(content@),
                i <= lv.len(),
                self.wf(),
                self.commands_view() == commands_of_lines(lv.take(i as int)),
                self.current_index == 0,
                self.handler_lists() == old(self).handler_lists(),
                self.running == old(self).running,
                self.paused == old(self).paused,
                self.waiting_for_input == old(self).waiting_for_input,
                self.dispatched@ == old(self).dispatched@,
            decreases ls.len() - i,
        {
            proof {
                assert(lv.take(i + 1).drop_last() =~= lv.take(i as int));
                assert(lv.take(i + 1).last() == lv[i as int]);
                assert(ls.deep_view()[i as int] =~= ls@[i as int]@);
            }
            let t = trim(ls[i].as_slice());
            if t.len() == 0 || t[0] == '#' {
            } else {
                match parse_line(t.as_slice()) {
                    Some(cmd) => {
                        let ghost cv = command_view(cmd);
                        let ghost before = self.commands_view();
                        if cmd.command_type == CommandType::Label && cmd.params.len() > 0 {
                            let name = cmd.params[0].clone();
                            let pos = self.commands.len();
                            self.labels.insert(name, pos);
                        }
                        self.commands.push(cmd);
                        proof {
                            assert(self.commands_view() =~= before.push(cv));
                            assert(self.commands_view().drop_last() =~= before);
                            assert(self.types() =~= self.commands@.map_values(
                                |c: Command| c.command_type,
                            ));
                        }
                    },
                    None => {},
                }
            }
            i += 1;
        }
        assert(lv.take(lv.len() as int) =~= lv);
    }

    /// Starts running from the first command.
    pub fn start(&mut self)
        requires
            old(self).wf(),
        ensures
            final(self).wf(),
            old(self).same_script(final(self)),
            !final(self).paused_view(),
            final(self).status() == run(
                old(self).commands_view(),
                old(self).labels_view(),
                old(self).handler_lists(),
                0,
                true,
                old(self).waiting_view(),
                old(self).dispatched_view(),
            ),
    {
        self.running = true;
        self.paused = false;
        self.current_index = 0;
        self.execute_current();
    }

    /// Stops running (and lifts a pause).
    pub fn stop(&mut self)
        requires
            old(self).wf(),
        ensures
            final(self).wf(),
            old(self).same_script(final(self)),
            !final(self).running_view(),
            !final(self).paused_view(),
            final(self).index() == old(self).index(),
            final(self).waiting_view() == old(self).waiting_view(),
            final(self).dispatched_view() == old(self).dispatched_view(),
    {
        self.running = false;
        self.paused = false;
    }

    /// Pauses: advancing does nothing until resumed.
    pub fn pause(&mut self)
        requires
            old(self).wf(),
        ensures
            final(self).wf(),
            old(self).same_script(final(self)),
            final(self).paused_view(),
            final(self).status() == old(self).status(),
    {
        self.paused = true;
    }

    /// Lifts a pause.
    pub fn resume(&mut self)
        requires
            old(self).wf(),
        ensures
            final(self).wf(),
            old(self).same_script(final(self)),
            !final(self).paused_view(),
            final(self).status() == old(self).status(),
    {
        self.paused = false;
    }

    /// Advances past the command the reader is waiting on: when waiting
    /// and not paused, stops waiting and runs from the next command, or
    /// stops running when there is none (the position does not move past
    /// the end).  Otherwise does nothing.
    pub fn next(&mut self)
        requires
            old(self).wf(),
        ensures
            final(self).wf(),
            old(self).same_script(final(self)),
            final(self).paused_view() == old(self).paused_view(),
            ({
                let len = old(self).commands_view().len() as int;
                let i = old(self).index() as int;
                let ni = if i < len {
                    i + 1
                } else {
                    i
                };
                if old(self).waiting_view() && !old(self).paused_view() {
                    if ni < len {
                        final(self).status() == run(
                            old(self).commands_view(),
                            old(self).labels_view(),
                            old(self).handler_lists(),
                            ni,
                            old(self).running_view(),
                            false,
                            old(self).dispatched_view(),
                        )
                    } else {
                        final(self).status() == (ni, false, false, old(self).dispatched_view())
                    }
                } else {
                    final(self).status() == old(self).status()
                }
            }),
    {
        if self.waiting_for_input && !self.paused {
            self.waiting_for_input = false;
            if self.current_index < self.commands.len() {
                self.current_index += 1;
            }
            if self.current_index < self.commands.len() {
                self.execute_current();
            } else {
                self.running = false;
            }
        }
    }

    /// Runs from just after label `label`, if the script has it; returns
    /// whether it has.
    pub fn jump_to_label(&mut self, label: &str) -> (r: bool)
        requires
            old(self).wf(),
        ensures
            final(self).wf(),
            old(self).same_script(final(self)),
            final(self).paused_view() == old(self).paused_view(),
            r == old(self).labels_view().contains_key(label@),
            r ==> final(self).status() == run(
                old(self).commands_view(),
                old(self).labels_view(),
                old(self).handler_lists(),
                old(self).labels_view()[label@] + 1,
                old(self).running_view(),
                old(self).waiting_view(),
                old(self).dispatched_view(),
            ),
            !r ==> final(self).status() == old(self).status(),
    {
        match self.labels.get(label) {
            Some(index) => {
                let n = self.commands.len();
                proof {
                    assert(self.commands_view().len() == n);
                    lemma_labels_of(self.commands_view());
                    assert(index < self.commands_view().len());
                }
                assert(index < self.commands.len());
                self.current_index = index + 1;
                self.execute_current();
                true
            },
            None => false,
        }
    }

    /// The current command, if the position is within the script.
    pub fn current_command(&self) -> (r: Option<&Command>)
        requires
            self.wf(),
        ensures
            self.index() < self.commands_view().len() ==> (r matches Some(c) && command_view(*c)
                == self.commands_view()[self.index() as int]),
            self.index() >= self.commands_view().len() ==> r is None,
    {
        self.command_at(self.current_index)
    }

    /// The command at position `k`, if any.
    pub fn command_at(&self, k: usize) -> (r: Option<&Command>)
        requires
            self.wf(),
        ensures
            k < self.commands_view().len() ==> (r matches Some(c) && command_view(*c)
                == self.commands_view()[k as int]),
            k >= self.commands_view().len() ==> r is None,
    {
        if k < self.commands.len() {
            Some(&self.commands[k])
        } else {
            None
        }
    }

    /// Number of commands.
    pub fn command_count(&self) -> (r: usize)
        ensures
            r == self.commands_view().len(),
    {
        self.commands.len()
    }

    /// Whether the engine waits for the reader.
    pub fn is_waiting_for_input(&self) -> (r: bool)
        ensures
            r == self.waiting_view(),
    {
        self.waiting_for_input
    }

    /// Whether the script is running.
    pub fn is_running(&self) -> (r: bool)
        ensures
            r == self.running_view(),
    {
        self.running
    }

    /// Whether execution is paused.
    pub fn is_paused(&self) -> (r: bool)
        ensures
            r == self.paused_view(),
    {
        self.paused
    }

    /// Takes the queued handler calls, in the order they are due: each is
    /// the position of a command and the id of a handler to call with it.
    pub fn take_dispatched(&mut self) -> (r: Vec<(usize, u64)>)
        requires
            old(self).wf(),
        ensures
            final(self).wf(),
            old(self).same_script(final(self)),
            r@ == old(self).dispatched_view(),
            final(self).dispatched_view().len() == 0,
            final(self).index() == old(self).index(),
            final(self).running_view() == old(self).running_view(),
            final(self).paused_view() == old(self).paused_view(),
            final(self).waiting_view() == old(self).waiting_view(),
    {
        let mut out: Vec<(usize, u64)> = Vec::new();
        std::mem::swap(&mut out, &mut self.dispatched);
        out
    }

    /// Prepares the engine; always succeeds.
    pub fn initialize(&mut self) -> (r: Result<(), String>)
        requires
            old(self).wf(),
        ensures
            r is Ok,
            *final(self) == *old(self),
    {
        Ok(())
    }

    /// Stops running and drops the script and its labels (handlers stay).
    pub fn shutdown(&mut self)
        requires
            old(self).wf(),
        ensures
            final(self).wf(),
            final(self).commands_view().len() == 0,
            final(self).labels_view() == Map::<Seq<char>, usize>::empty(),
            final(self).handler_lists() == old(self).handler_lists(),
            !final(self).running_view(),
            !final(self).paused_view(),
            final(self).waiting_view() == old(self).waiting_view(),
            final(self).dispatched_view() == old(self).dispatched_view(),
    {
        self.stop();
        self.commands = Vec::new();
        self.labels = StrMap::new();
        proof {
            assert(self.commands_view() =~= Seq::<CommandView>::empty());
            assert(self.types() =~= Seq::<CommandType>::empty());
        }
    }
}

impl Default for ScriptEngine {
    /// Same as `ScriptEngine::new`.
    fn default() -> (r: Self)
        ensures
            r.wf(),
            r.commands_view().len() == 0,
            forall|t: CommandType| r.handler_ids(t).len() == 0,
            r.index() == 0,
            !r.running_view(),
            !r.paused_view(),
            !r.waiting_view(),
            r.dispatched_view().len() == 0,
    {
        ScriptEngine::new()
    }
}

} // verus!

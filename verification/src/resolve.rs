//! The command resolver. A task's raw command line is split on single
//! spaces; the first token names the program, and each remaining token is
//! replaced by its variable value when the token is a known variable name,
//! or passed through literally when it is not.

use vstd::prelude::*;
use crate::assoc::{assoc_map, unique_keys, lemma_assoc_contains, lemma_assoc_value,
    lemma_assoc_update, lemma_assoc_push};
use crate::parse::{TaskDefinition, TaskDefView};
use crate::text::{bytes_eq, split_spaces, split_spaces_spec};
use crate::vars::VariableMap;

verus! {

broadcast use crate::text::lemma_bytes_deep_view;

/// A resolved, ready-to-invoke command: a program and its argument list.
pub struct CommandSpec {
    pub program: Vec<u8>,
    pub args: Vec<Vec<u8>>,
}

/// The mathematical value of a `CommandSpec`.
pub struct CommandSpecView {
    pub program: Seq<u8>,
    pub args: Seq<Seq<u8>>,
}

impl View for CommandSpec {
    type V = CommandSpecView;

    open spec fn view(&self) -> CommandSpecView {
        CommandSpecView { program: self.program@, args: self.args.deep_view() }
    }
}

impl DeepView for CommandSpec {
    type V = CommandSpecView;

    open spec fn deep_view(&self) -> CommandSpecView {
        self@
    }
}

impl CommandSpec {
    /// An identical copy.
    pub fn duplicate(&self) -> (r: CommandSpec)
        ensures
            r@ == self@,
    {
        let program = vstd::slice::slice_to_vec(self.program.as_slice());
        let mut args: Vec<Vec<u8>> = Vec::new();
        let mut i: usize = 0;
        proof {
            assert(args.deep_view() =~= self.args.deep_view().take(0));
        }
        while i < self.args.len()
            invariant
                i <= self.args@.len(),
                args.deep_view() == self.args.deep_view().take(i as int),
            decreases self.args@.len() - i,
        {
            let ghost prev = args.deep_view();
            let a = vstd::slice::slice_to_vec(self.args[i].as_slice());
            let ghost av = a@;
            args.push(a);
            proof {
                assert(args.deep_view() =~= prev.push(av));
                assert(self.args.deep_view().take(i as int + 1) =~= self.args.deep_view().take(
                    i as int,
                ).push(self.args.deep_view()[i as int]));
            }
            i = i + 1;
        }
        proof {
            assert(self.args.deep_view().take(self.args@.len() as int) =~= self.args.deep_view());
        }
        let r = CommandSpec { program, args };
        r
    }
}

/// A token resolves to its variable value when it names a variable, and to
/// itself when it does not.
pub open spec fn subst_token(tok: Seq<u8>, vars: Map<Seq<u8>, Seq<u8>>) -> Seq<u8> {
    if vars.contains_key(tok) {
        vars[tok]
    } else {
        tok
    }
}

/// The command specification a raw command line resolves to: the first
/// space-separated token is the program, every later token is substituted.
/// An empty command line resolves to nothing.
pub open spec fn resolve_spec(cmd: Seq<u8>, vars: Map<Seq<u8>, Seq<u8>>) -> Option<
    CommandSpecView,
> {
    if cmd.len() == 0 {
        None
    } else {
        let toks = split_spaces_spec(cmd);
        Some(
            CommandSpecView {
                program: toks[0],
                args: toks.drop_first().map_values(|t: Seq<u8>| subst_token(t, vars)),
            },
        )
    }
}

/// Resolves a raw command line against the variable mapping.
pub fn resolve_command(cmd: &[u8], vars: &VariableMap) -> (r: Option<CommandSpec>)
    requires
        vars.well_formed(),
    ensures
        match r {
            Some(cs) => resolve_spec(cmd@, vars@) == Some(cs@),
            None => cmd@.len() == 0 && resolve_spec(cmd@, vars@) is None,
        },
{
    if cmd.len() == 0 {
        return None;
    }
    let toks = split_spaces(cmd);
    let program = vstd::slice::slice_to_vec(toks[0].as_slice());
    let ghost f = |t: Seq<u8>| subst_token(t, vars@);
    let mut args: Vec<Vec<u8>> = Vec::new();
    let mut i: usize = 1;
    proof {
        assert(args.deep_view() =~= toks.deep_view().subrange(1, 1).map_values(f));
    }
    while i < toks.len()
        invariant
            1 <= i <= toks@.len(),
            toks.deep_view() == split_spaces_spec(cmd@),
            vars.well_formed(),
            f == (|t: Seq<u8>| subst_token(t, vars@)),
            args.deep_view() == toks.deep_view().subrange(1, i as int).map_values(f),
        decreases toks@.len() - i,
    {
        let ghost prev = args.deep_view();
        proof {
            assert(toks.deep_view()[i as int] == toks@[i as int]@);
        }
        let arg = match vars.get(toks[i].as_slice()) {
            Some(v) => vstd::slice::slice_to_vec(v.as_slice()),
            None => vstd::slice::slice_to_vec(toks[i].as_slice()),
        };
        let ghost av = arg@;
        proof {
            assert(av == f(toks.deep_view()[i as int]));
        }
        args.push(arg);
        proof {
            assert(args.deep_view() =~= prev.push(av));
            assert(toks.deep_view().subrange(1, i as int + 1).map_values(f) =~= toks.deep_view()
                .subrange(1, i as int).map_values(f).push(f(toks.deep_view()[i as int])));
        }
        i = i + 1;
    }
    proof {
        assert(toks.deep_view().subrange(1, toks@.len() as int) =~= toks.deep_view().drop_first());
        assert(toks.deep_view()[0] == toks@[0]@);
    }
    Some(CommandSpec { program, args })
}

/// The resolved commands of a list of tasks, keyed by task name; a later
/// task with the same name shadows an earlier one, and a task whose
/// command does not resolve contributes nothing.
pub open spec fn registry_upto(
    tasks: Seq<TaskDefView>,
    vars: Map<Seq<u8>, Seq<u8>>,
    n: int,
) -> Map<Seq<u8>, CommandSpecView>
    decreases n,
{
    if n <= 0 {
        Map::empty()
    } else {
        let m = registry_upto(tasks, vars, n - 1);
        match resolve_spec(tasks[n - 1].command, vars) {
            Some(cs) => m.insert(tasks[n - 1].name, cs),
            None => m,
        }
    }
}

/// The resolved commands of a whole task list.
pub open spec fn registry_spec(tasks: Seq<TaskDefView>, vars: Map<Seq<u8>, Seq<u8>>) -> Map<
    Seq<u8>,
    CommandSpecView,
> {
    registry_upto(tasks, vars, tasks.len() as int)
}

/// The registry of resolved commands, keyed by task name.
pub struct CommandRegistry {
    entries: Vec<(Vec<u8>, CommandSpec)>,
}

impl View for CommandRegistry {
    type V = Map<Seq<u8>, CommandSpecView>;

    closed spec fn view(&self) -> Map<Seq<u8>, CommandSpecView> {
        assoc_map(self.entries.deep_view())
    }
}

impl CommandRegistry {
    /// Each task name is held by at most one entry.
    pub closed spec fn well_formed(self) -> bool {
        unique_keys(self.entries.deep_view())
    }

    /// An empty registry.
    pub fn new() -> (r: CommandRegistry)
        ensures
            r@ == Map::<Seq<u8>, CommandSpecView>::empty(),
            r.well_formed(),
    {
        let r = CommandRegistry { entries: Vec::new() };
        proof {
            assert(r.entries.deep_view() =~= Seq::<(Seq<u8>, CommandSpecView)>::empty());
        }
        r
    }

    /// Registers a command under a task name, overwriting any earlier one.
    pub fn insert(&mut self, key: Vec<u8>, value: CommandSpec)
        requires
            old(self).well_formed(),
        ensures
            final(self)@ == old(self)@.insert(key@, value@),
            final(self).well_formed(),
    {
        let ghost es0 = self.entries.deep_view();
        let ghost kv = key@;
        let ghost vv = value@;
        let mut i: usize = 0;
        while i < self.entries.len()
            invariant
                i <= self.entries@.len(),
                self.entries.deep_view() == es0,
                assoc_map(es0) == old(self)@,
                unique_keys(es0),
                kv == key@,
                vv == value@,
                forall|j: int| 0 <= j < i ==> es0[j].0 != kv,
            decreases self.entries@.len() - i,
        {
            let hit = {
                let entry = &self.entries[i];
                bytes_eq(entry.0.as_slice(), key.as_slice())
            };
            proof {
                assert(es0[i as int] == (self.entries@[i as int].0@, self.entries@[i as int].1@));
            }
            if hit {
                self.entries[i] = (key, value);
                proof {
                    assert(self.entries.deep_view() =~= es0.update(i as int, (kv, vv)));
                    assert forall|l: int| i < l < es0.len() implies es0[l].0 != kv by {
                        assert(es0[i as int].0 != es0[l].0);
                    }
                    lemma_assoc_update(es0, kv, vv, i as int);
                    assert forall|a: int, b: int|
                        0 <= a < b < es0.len() implies es0.update(i as int, (kv, vv))[a].0
                        != es0.update(i as int, (kv, vv))[b].0 by {
                        assert(es0[a].0 != es0[b].0);
                        assert(es0[i as int].0 == kv);
                    }
                }
                return ;
            }
            i = i + 1;
        }
        self.entries.push((key, value));
        proof {
            assert(self.entries.deep_view() =~= es0.push((kv, vv)));
            lemma_assoc_push(es0, kv, vv);
            assert forall|a: int, b: int|
                0 <= a < b < es0.push((kv, vv)).len() implies es0.push((kv, vv))[a].0 != es0.push(
                (kv, vv),
            )[b].0 by {
                if b < es0.len() {
                    assert(es0[a].0 != es0[b].0);
                } else {
                    assert(es0[a].0 != kv);
                }
            }
        }
    }

    /// Looks a task name up: its resolved command, or `None` when the name
    /// has none.
    pub fn get(&self, key: &[u8]) -> (r: Option<&CommandSpec>)
        requires
            self.well_formed(),
        ensures
            match r {
                Some(cs) => self@.contains_key(key@) && cs@ == self@[key@],
                None => !self@.contains_key(key@),
            },
    {
        let ghost es = self.entries.deep_view();
        let mut i: usize = 0;
        while i < self.entries.len()
            invariant
                i <= self.entries@.len(),
                es == self.entries.deep_view(),
                unique_keys(es),
                forall|j: int| 0 <= j < i ==> es[j].0 != key@,
            decreases self.entries@.len() - i,
        {
            proof {
                assert(es[i as int] == (self.entries@[i as int].0@, self.entries@[i as int].1@));
            }
            let hit = {
                let entry = &self.entries[i];
                bytes_eq(entry.0.as_slice(), key)
            };
            if hit {
                proof {
                    assert forall|l: int| i < l < es.len() implies es[l].0 != key@ by {
                        assert(es[i as int].0 != es[l].0);
                    }
                    lemma_assoc_value(es, key@, i as int);
                }
                return Some(&self.entries[i].1);
            }
            i = i + 1;
        }
        proof {
            lemma_assoc_contains(es, key@);
        }
        None
    }
}

/// Resolves every task's command against the variable mapping and registers
/// the results by task name.
pub fn build_registry(tasks: &Vec<TaskDefinition>, vars: &VariableMap) -> (r: CommandRegistry)
    requires
        vars.well_formed(),
    ensures
        r@ == registry_spec(tasks.deep_view(), vars@),
        r.well_formed(),
{
    let mut registry = CommandRegistry::new();
    let mut i: usize = 0;
    while i < tasks.len()
        invariant
            i <= tasks@.len(),
            vars.well_formed(),
            registry@ == registry_upto(tasks.deep_view(), vars@, i as int),
            registry.well_formed(),
        decreases tasks@.len() - i,
    {
        proof {
            assert(tasks.deep_view()[i as int] == tasks@[i as int]@);
        }
        let task = &tasks[i];
        match resolve_command(task.command.as_slice(), vars) {
            Some(cs) => {
                let name = vstd::slice::slice_to_vec(task.name.as_slice());
                registry.insert(name, cs);
            },
            None => {},
        }
        i = i + 1;
    }
    proof {
        assert(tasks@.len() == tasks.deep_view().len());
    }
    registry
}

} // verus!

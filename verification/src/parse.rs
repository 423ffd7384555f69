//! The configuration parser. One left-to-right pass over the lines of the
//! configuration text recognizes three independent constructs: variable
//! lines (`$KEY = "value"`), task blocks (a `[name]` header followed by a
//! `command = ...` line), and a single `[execute]` section listing the
//! task names to run. Malformed constructs are skipped, never errors.

use vstd::prelude::*;
use crate::text::{find_byte_spec, lemma_find_byte_props, find_byte, trim_by, ws_pred, sq_pred,
    trim_ws, trim_space_quote, lines_spec, split_lines};
use crate::vars::VariableMap;
use std::collections::VecDeque;

verus! {

broadcast use crate::text::lemma_bytes_deep_view;

/// A parsed task: a label bound to one raw command line.
pub struct TaskDefinition {
    pub name: Vec<u8>,
    pub command: Vec<u8>,
}

/// The mathematical value of a `TaskDefinition`.
pub struct TaskDefView {
    pub name: Seq<u8>,
    pub command: Seq<u8>,
}

impl View for TaskDefinition {
    type V = TaskDefView;

    open spec fn view(&self) -> TaskDefView {
        TaskDefView { name: self.name@, command: self.command@ }
    }
}

impl DeepView for TaskDefinition {
    type V = TaskDefView;

    open spec fn deep_view(&self) -> TaskDefView {
        self@
    }
}

/// Drops the `$` marker from the front of a variable key, if present.
pub open spec fn strip_dollar_spec(k: Seq<u8>) -> Seq<u8> {
    if k.len() > 0 && k[0] == 36 {
        k.drop_first()
    } else {
        k
    }
}

/// Splits a line at its first `=` into a key part and a value part, each
/// trimmed of surrounding spaces and double quotes; a line without `=`
/// yields nothing.
pub open spec fn key_value_split(s: Seq<u8>) -> Option<(Seq<u8>, Seq<u8>)> {
    match find_byte_spec(s, 61) {
        None => None,
        Some(i) => Some(
            (trim_by(s.take(i), sq_pred()), trim_by(s.skip(i + 1), sq_pred())),
        ),
    }
}

/// The key/value pair a line defines, when the line (after trimming) starts
/// with `$` and holds an `=`; the stored key loses its `$` marker.
pub open spec fn parsed_variable(line: Seq<u8>) -> Option<(Seq<u8>, Seq<u8>)> {
    let t = trim_by(line, ws_pred());
    if t.len() > 0 && t[0] == 36 {
        match key_value_split(t) {
            Some(kv) => Some((strip_dollar_spec(kv.0), kv.1)),
            None => None,
        }
    } else {
        None
    }
}

/// How one line changes the variable mapping.
pub open spec fn vars_step(m: Map<Seq<u8>, Seq<u8>>, line: Seq<u8>) -> Map<Seq<u8>, Seq<u8>> {
    match parsed_variable(line) {
        Some(kv) => m.insert(kv.0, kv.1),
        None => m,
    }
}

/// The variable mapping after the first `n` lines.
pub open spec fn vars_upto(lines: Seq<Seq<u8>>, n: int) -> Map<Seq<u8>, Seq<u8>>
    decreases n,
{
    if n <= 0 {
        Map::empty()
    } else {
        vars_step(vars_upto(lines, n - 1), lines[n - 1])
    }
}

/// The variable mapping defined by a configuration text.
pub open spec fn variables_spec(config: Seq<u8>) -> Map<Seq<u8>, Seq<u8>> {
    vars_upto(lines_spec(config), lines_spec(config).len() as int)
}

/// A variable line defines exactly its key/value binding.
pub proof fn lemma_variable_line_binds(
    m: Map<Seq<u8>, Seq<u8>>,
    line: Seq<u8>,
    k: Seq<u8>,
    v: Seq<u8>,
)
    requires
        parsed_variable(line) == Some((k, v)),
    ensures
        vars_step(m, line) == m.insert(k, v),
{
}

/// A later variable line for the same key overwrites the earlier value.
pub proof fn lemma_later_variable_wins(
    m: Map<Seq<u8>, Seq<u8>>,
    l1: Seq<u8>,
    l2: Seq<u8>,
    k: Seq<u8>,
    v1: Seq<u8>,
    v2: Seq<u8>,
)
    requires
        parsed_variable(l1) == Some((k, v1)),
        parsed_variable(l2) == Some((k, v2)),
    ensures
        vars_step(vars_step(m, l1), l2).contains_key(k),
        vars_step(vars_step(m, l1), l2)[k] == v2,
{
}

/// Reads a line as a key/value pair separated by the first `=`.
pub fn get_line_key_value(line: &[u8]) -> (r: Option<(Vec<u8>, Vec<u8>)>)
    ensures
        match r {
            Some(kv) => key_value_split(line@) == Some((kv.0@, kv.1@)),
            None => key_value_split(line@) is None,
        },
{
    match find_byte(line, 61) {
        None => None,
        Some(i) => {
            proof {
                lemma_find_byte_props(line@, 61);
                assert(i < line@.len());
            }
            let n = line.len();
            let key = trim_space_quote(vstd::slice::slice_subrange(line, 0, i));
            let value = trim_space_quote(vstd::slice::slice_subrange(line, i + 1, n));
            proof {
                assert(line@.subrange(0, i as int) =~= line@.take(i as int));
                assert(line@.subrange(i as int + 1, line@.len() as int) =~= line@.skip(
                    i as int + 1,
                ));
            }
            Some((key, value))
        },
    }
}

/// Drops the `$` marker from the front of a variable key, if present.
pub fn strip_dollar(key: Vec<u8>) -> (r: Vec<u8>)
    ensures
        r@ == strip_dollar_spec(key@),
{
    if key.len() > 0 && key[0] == 36 {
        let r = vstd::slice::slice_to_vec(
            vstd::slice::slice_subrange(key.as_slice(), 1, key.len()),
        );
        proof {
            assert(key@.subrange(1, key@.len() as int) =~= key@.drop_first());
        }
        r
    } else {
        key
    }
}

/// Extracts the variable mapping from a configuration text.
pub fn get_variables_map(config: &[u8]) -> (r: VariableMap)
    ensures
        r@ == variables_spec(config@),
        r.well_formed(),
{
    let lines = split_lines(config);
    let mut vars = VariableMap::new();
    let mut i: usize = 0;
    while i < lines.len()
        invariant
            i <= lines@.len(),
            lines.deep_view() == lines_spec(config@),
            vars@ == vars_upto(lines_spec(config@), i as int),
            vars.well_formed(),
        decreases lines@.len() - i,
    {
        proof {
            assert(lines.deep_view()[i as int] == lines@[i as int]@);
        }
        let trimmed = trim_ws(lines[i].as_slice());
        if trimmed.len() > 0 && trimmed[0] == 36 {
            match get_line_key_value(trimmed.as_slice()) {
                Some((key, value)) => {
                    let key = strip_dollar(key);
                    vars.insert(key, value);
                },
                None => {},
            }
        }
        i = i + 1;
    }
    proof {
        assert(lines@.len() == lines_spec(config@).len());
    }
    vars
}

/// Whether a trimmed line is a task header: brackets at both ends.
pub open spec fn is_header(t: Seq<u8>) -> bool {
    t.len() >= 2 && t[0] == 91 && t[t.len() - 1] == 93
}

/// The task name inside a header's outer brackets.
pub open spec fn header_name(t: Seq<u8>) -> Seq<u8> {
    t.subrange(1, t.len() - 1)
}

/// The keyword that introduces a task's command line.
pub open spec fn command_kw() -> Seq<u8> {
    seq![99u8, 111u8, 109u8, 109u8, 97u8, 110u8, 100u8]
}

/// Whether `p` is a prefix of `t`.
pub open spec fn prefix_of(t: Seq<u8>, p: Seq<u8>) -> bool {
    p.len() <= t.len() && forall|i: int| 0 <= i < p.len() ==> t[i] == p[i]
}

fn kw_byte(j: usize) -> (r: u8)
    requires
        j < 7,
    ensures
        r == command_kw()[j as int],
{
    if j == 0 {
        99
    } else if j == 1 {
        111
    } else if j == 2 {
        109
    } else if j == 3 {
        109
    } else if j == 4 {
        97
    } else if j == 5 {
        110
    } else {
        100
    }
}

/// Whether a trimmed line starts with the `command` keyword.
pub fn starts_with_command(t: &[u8]) -> (r: bool)
    ensures
        r == prefix_of(t@, command_kw()),
{
    if t.len() < 7 {
        return false;
    }
    let mut j: usize = 0;
    while j < 7
        invariant
            j <= 7,
            t@.len() >= 7,
            forall|l: int| 0 <= l < j ==> t@[l] == command_kw()[l],
        decreases 7 - j,
    {
        if t[j] != kw_byte(j) {
            proof {
                assert(t@[j as int] != command_kw()[j as int]);
            }
            return false;
        }
        j = j + 1;
    }
    true
}

/// Where the task scan stands: looking for the next header, or looking for
/// the command line of the header already found.
pub enum TaskScan {
    SeekingHeader,
    SeekingCommand(Seq<u8>),
}

/// How one line changes the task scan. A header opens a task; the first
/// `command`-prefixed line with an `=` closes it, appending a definition
/// when the value is non-empty and dropping the task when it is empty;
/// every other line is skipped.
pub open spec fn task_step(st: (TaskScan, Seq<TaskDefView>), line: Seq<u8>) -> (
    TaskScan,
    Seq<TaskDefView>,
) {
    let t = trim_by(line, ws_pred());
    match st.0 {
        TaskScan::SeekingHeader => {
            if is_header(t) {
                (TaskScan::SeekingCommand(header_name(t)), st.1)
            } else {
                st
            }
        },
        TaskScan::SeekingCommand(name) => {
            if prefix_of(t, command_kw()) {
                match key_value_split(t) {
                    Some(kv) => {
                        if kv.1.len() > 0 {
                            (
                                TaskScan::SeekingHeader,
                                st.1.push(TaskDefView { name: name, command: kv.1 }),
                            )
                        } else {
                            (TaskScan::SeekingHeader, st.1)
                        }
                    },
                    None => st,
                }
            } else {
                st
            }
        },
    }
}

/// The task scan state and definitions after the first `n` lines.
pub open spec fn task_scan_upto(lines: Seq<Seq<u8>>, n: int) -> (TaskScan, Seq<TaskDefView>)
    decreases n,
{
    if n <= 0 {
        (TaskScan::SeekingHeader, Seq::empty())
    } else {
        task_step(task_scan_upto(lines, n - 1), lines[n - 1])
    }
}

/// The task definitions of a configuration text.
pub open spec fn tasks_spec(config: Seq<u8>) -> Seq<TaskDefView> {
    task_scan_upto(lines_spec(config), lines_spec(config).len() as int).1
}

/// A header line followed by a command line with a non-empty value yields
/// exactly one task definition and returns the scan to seeking a header.
pub proof fn lemma_task_block(
    acc: Seq<TaskDefView>,
    header: Seq<u8>,
    cmdline: Seq<u8>,
    kv: (Seq<u8>, Seq<u8>),
)
    requires
        is_header(trim_by(header, ws_pred())),
        prefix_of(trim_by(cmdline, ws_pred()), command_kw()),
        key_value_split(trim_by(cmdline, ws_pred())) == Some(kv),
        kv.1.len() > 0,
    ensures
        task_step(task_step((TaskScan::SeekingHeader, acc), header), cmdline) == (
            TaskScan::SeekingHeader,
            acc.push(
                TaskDefView { name: header_name(trim_by(header, ws_pred())), command: kv.1 },
            ),
        ),
{
}

/// Extracts the task definitions from a configuration text.
pub fn get_user_tasks(config: &[u8]) -> (r: Vec<TaskDefinition>)
    ensures
        r.deep_view() == tasks_spec(config@),
{
    let lines = split_lines(config);
    let mut tasks: Vec<TaskDefinition> = Vec::new();
    let mut task_name: Vec<u8> = Vec::new();
    let mut task_found: bool = false;
    let mut i: usize = 0;
    proof {
        assert(tasks.deep_view() =~= Seq::<TaskDefView>::empty());
    }
    while i < lines.len()
        invariant
            i <= lines@.len(),
            lines.deep_view() == lines_spec(config@),
            task_scan_upto(lines_spec(config@), i as int) == (
                (if task_found {
                    TaskScan::SeekingCommand(task_name@)
                } else {
                    TaskScan::SeekingHeader
                }),
                tasks.deep_view(),
            ),
        decreases lines@.len() - i,
    {
        proof {
            assert(lines.deep_view()[i as int] == lines@[i as int]@);
        }
        let trimmed = trim_ws(lines[i].as_slice());
        if !task_found {
            if trimmed.len() >= 2 && trimmed[0] == 91 && trimmed[trimmed.len() - 1] == 93 {
                task_name = vstd::slice::slice_to_vec(
                    vstd::slice::slice_subrange(trimmed.as_slice(), 1, trimmed.len() - 1),
                );
                task_found = true;
                proof {
                    assert(task_name@ =~= header_name(trimmed@));
                }
            }
        } else {
            if starts_with_command(trimmed.as_slice()) {
                match get_line_key_value(trimmed.as_slice()) {
                    Some((_key, value)) => {
                        if value.len() > 0 {
                            let name = task_name;
                            task_name = Vec::new();
                            let ghost prev_tasks = tasks.deep_view();
                            let td = TaskDefinition { name: name, command: value };
                            let ghost tdv = td@;
                            tasks.push(td);
                            task_found = false;
                            proof {
                                assert(tasks.deep_view() =~= prev_tasks.push(tdv));
                            }
                        } else {
                            task_name = Vec::new();
                            task_found = false;
                        }
                    },
                    None => {},
                }
            }
        }
        i = i + 1;
    }
    proof {
        assert(lines@.len() == lines_spec(config@).len());
    }
    tasks
}

/// The exact line that opens the execute section.
pub open spec fn execute_marker() -> Seq<u8> {
    seq![91u8, 101u8, 120u8, 101u8, 99u8, 117u8, 116u8, 101u8, 93u8]
}

/// Where the execute-section scan stands: before the section, inside it,
/// or past its terminating blank line.
pub enum QueueScan {
    BeforeSection,
    InSection,
    SectionDone,
}

/// How one line changes the execute-section scan. The untrimmed line
/// `[execute]` opens the section; every following line is appended
/// verbatim as a task-name reference until a blank line closes the
/// section for good.
pub open spec fn queue_step(st: (QueueScan, Seq<Seq<u8>>), line: Seq<u8>) -> (
    QueueScan,
    Seq<Seq<u8>>,
) {
    match st.0 {
        QueueScan::BeforeSection => {
            if line == execute_marker() {
                (QueueScan::InSection, st.1)
            } else {
                st
            }
        },
        QueueScan::InSection => {
            if line.len() == 0 {
                (QueueScan::SectionDone, st.1)
            } else {
                (QueueScan::InSection, st.1.push(line))
            }
        },
        QueueScan::SectionDone => st,
    }
}

/// The execute-section scan state and queue after the first `n` lines.
pub open spec fn queue_scan_upto(lines: Seq<Seq<u8>>, n: int) -> (QueueScan, Seq<Seq<u8>>)
    decreases n,
{
    if n <= 0 {
        (QueueScan::BeforeSection, Seq::empty())
    } else {
        queue_step(queue_scan_upto(lines, n - 1), lines[n - 1])
    }
}

/// The execute queue of a configuration text.
pub open spec fn queue_spec(config: Seq<u8>) -> Seq<Seq<u8>> {
    queue_scan_upto(lines_spec(config), lines_spec(config).len() as int).1
}

fn marker_byte(j: usize) -> (r: u8)
    requires
        j < 9,
    ensures
        r == execute_marker()[j as int],
{
    if j == 0 {
        91
    } else if j == 1 {
        101
    } else if j == 2 {
        120
    } else if j == 3 {
        101
    } else if j == 4 {
        99
    } else if j == 5 {
        117
    } else if j == 6 {
        116
    } else if j == 7 {
        101
    } else {
        93
    }
}

/// Whether a line is exactly the `[execute]` marker.
fn is_execute_marker(line: &[u8]) -> (r: bool)
    ensures
        r == (line@ == execute_marker()),
{
    if line.len() != 9 {
        proof {
            assert(line@ != execute_marker());
        }
        return false;
    }
    let mut j: usize = 0;
    while j < 9
        invariant
            j <= 9,
            line@.len() == 9,
            forall|l: int| 0 <= l < j ==> line@[l] == execute_marker()[l],
        decreases 9 - j,
    {
        if line[j] != marker_byte(j) {
            proof {
                assert(line@[j as int] != execute_marker()[j as int]);
            }
            return false;
        }
        j = j + 1;
    }
    proof {
        assert(line@ =~= execute_marker());
    }
    true
}

/// Extracts the execute queue from a configuration text.
pub fn get_execute_queue(config: &[u8]) -> (r: VecDeque<Vec<u8>>)
    ensures
        r.deep_view() == queue_spec(config@),
{
    let lines = split_lines(config);
    let mut queue: VecDeque<Vec<u8>> = VecDeque::new();
    let mut state = QueueScan::BeforeSection;
    let mut i: usize = 0;
    proof {
        assert(queue.deep_view() =~= Seq::<Seq<u8>>::empty());
    }
    while i < lines.len()
        invariant
            i <= lines@.len(),
            lines.deep_view() == lines_spec(config@),
            queue_scan_upto(lines_spec(config@), i as int) == (state, queue.deep_view()),
        decreases lines@.len() - i,
    {
        proof {
            assert(lines.deep_view()[i as int] == lines@[i as int]@);
        }
        match state {
            QueueScan::BeforeSection => {
                if is_execute_marker(lines[i].as_slice()) {
                    state = QueueScan::InSection;
                }
            },
            QueueScan::InSection => {
                if lines[i].len() == 0 {
                    state = QueueScan::SectionDone;
                } else {
                    let ghost prev_queue = queue.deep_view();
                    let entry = vstd::slice::slice_to_vec(lines[i].as_slice());
                    let ghost ev = entry@;
                    queue.push_back(entry);
                    proof {
                        assert(queue.deep_view() =~= prev_queue.push(ev));
                    }
                }
            },
            QueueScan::SectionDone => {},
        }
        i = i + 1;
    }
    proof {
        assert(lines@.len() == lines_spec(config@).len());
    }
    queue
}

/// Parsing is a pure function of the configuration text: equal texts give
/// equal variable mappings, task definitions and execute queues.
pub proof fn lemma_parse_deterministic(c1: Seq<u8>, c2: Seq<u8>)
    requires
        c1 == c2,
    ensures
        variables_spec(c1) == variables_spec(c2),
        tasks_spec(c1) == tasks_spec(c2),
        queue_spec(c1) == queue_spec(c2),
{
}

} // verus!

use vstd::prelude::*;
use vstd::std_specs::iter::IteratorSpec;

verus! {

/// Unicode `White_Space`, the characters `char::is_whitespace` accepts.
pub open spec fn is_ws(c: char) -> bool {
    ('\u{9}' <= c && c <= '\u{d}') || c == ' ' || c == '\u{85}' || c == '\u{a0}'
        || c == '\u{1680}' || ('\u{2000}' <= c && c <= '\u{200a}') || c == '\u{2028}'
        || c == '\u{2029}' || c == '\u{202f}' || c == '\u{205f}' || c == '\u{3000}'
}

fn is_ws_exec(c: char) -> (r: bool)
    ensures
        r == is_ws(c),
{
    ('\u{9}' <= c && c <= '\u{d}') || c == ' ' || c == '\u{85}' || c == '\u{a0}'
        || c == '\u{1680}' || ('\u{2000}' <= c && c <= '\u{200a}') || c == '\u{2028}'
        || c == '\u{2029}' || c == '\u{202f}' || c == '\u{205f}' || c == '\u{3000}'
}

/// The characters of `s`, in order.
fn chars_of(s: &str) -> (r: Vec<char>)
    ensures
        r@ == s@,
{
    let mut it = s.chars();
    let mut r: Vec<char> = Vec::new();
    loop
        invariant
            it.obeys_prophetic_iter_laws(),
            s@ == r@ + it.remaining(),
            it.decrease() is Some,
        ensures
            r@ == s@,
        decreases it.decrease()->0,
    {
        match it.next() {
            Some(c) => {
                r.push(c);
            },
            None => {
                assert(r@ + it.remaining() =~= r@);
                break;
            },
        }
    }
    r
}


/// `s` with its leading white space removed.
pub open spec fn trim_start(s: Seq<char>) -> Seq<char>
    decreases s.len(),
{
    if s.len() > 0 && is_ws(s[0]) {
        trim_start(s.drop_first())
    } else {
        s
    }
}

/// `s` with its trailing white space removed.
pub open spec fn trim_end(s: Seq<char>) -> Seq<char>
    decreases s.len(),
{
    if s.len() > 0 && is_ws(s.last()) {
        trim_end(s.drop_last())
    } else {
        s
    }
}

/// `s` with white space removed from both ends.
pub open spec fn trim(s: Seq<char>) -> Seq<char> {
    trim_end(trim_start(s))
}

/// Position of the first `|` in `s`, or `s.len()` when there is none.
pub open spec fn bar_index(s: Seq<char>) -> nat
    decreases s.len(),
{
    if s.len() == 0 || s[0] == '|' {
        0
    } else {
        1 + bar_index(s.drop_first())
    }
}

/// Whether a task entry holds the `|` that separates its name from its command.
pub open spec fn has_bar(label: Seq<char>) -> bool {
    bar_index(label) < label.len()
}

/// The task's name: what stands before the first `|`, trimmed.
pub open spec fn task_name(label: Seq<char>) -> Seq<char> {
    trim(label.take(bar_index(label) as int))
}

/// The identifier of a task of project `project`: project name, then task name.
pub open spec fn task_identifier(project: Seq<char>, label: Seq<char>) -> Seq<char> {
    project + task_name(label)
}

/// Start and end of the trimmed part of `v[a..b]`.
fn trim_range(v: &Vec<char>, a: usize, b: usize) -> (r: (usize, usize))
    requires
        a <= b <= v@.len(),
    ensures
        a <= r.0 <= r.1 <= b,
        v@.subrange(r.0 as int, r.1 as int) == trim(v@.subrange(a as int, b as int)),
{
    let mut i: usize = a;
    while i < b && is_ws_exec(v[i])
        invariant
            a <= i <= b <= v@.len(),
            trim_start(v@.subrange(a as int, b as int)) == trim_start(v@.subrange(i as int, b as int)),
        decreases b - i,
    {
        assert(v@.subrange(i as int, b as int).drop_first() =~= v@.subrange(i + 1, b as int));
        i = i + 1;
    }
    let mut j: usize = b;
    while j > i && is_ws_exec(v[j - 1])
        invariant
            a <= i <= j <= b <= v@.len(),
            trim_end(v@.subrange(i as int, b as int)) == trim_end(v@.subrange(i as int, j as int)),
        decreases j - i,
    {
        assert(v@.subrange(i as int, j as int).drop_last() =~= v@.subrange(i as int, j - 1));
        j = j - 1;
    }
    (i, j)
}

/// Position of the first `|` in `v[a..b]`, or `b`.
fn find_bar(v: &Vec<char>, a: usize, b: usize) -> (p: usize)
    requires
        a <= b <= v@.len(),
    ensures
        a <= p <= b,
        p - a == bar_index(v@.subrange(a as int, b as int)),
{
    let mut p: usize = a;
    while p < b && v[p] != '|'
        invariant
            a <= p <= b <= v@.len(),
            bar_index(v@.subrange(a as int, b as int)) == (p - a) + bar_index(
                v@.subrange(p as int, b as int),
            ),
        decreases b - p,
    {
        assert(v@.subrange(p as int, b as int).drop_first() =~= v@.subrange(p + 1, b as int));
        p = p + 1;
    }
    p
}


/// What a task is: its entry as the report shows it, and its identifier.
pub struct TaskModel {
    pub label: Seq<char>,
    pub identifier: Seq<char>,
}

/// What a project is: its name and its tasks, in report order.
pub struct ProjectModel {
    pub name: Seq<char>,
    pub tasks: Seq<TaskModel>,
}

/// The task of project `project` whose report entry is `label`.
pub open spec fn task_model(project: Seq<char>, label: Seq<char>) -> TaskModel {
    TaskModel { label, identifier: task_identifier(project, label) }
}

/// One runnable task: the entry `task` (such as `:build | make`) and the
/// identifier `command` that is handed to the build tool.
#[derive(Debug, Clone)]
pub struct Task {
    pub task: String,
    pub command: String,
}

impl View for Task {
    type V = TaskModel;

    open spec fn view(&self) -> TaskModel {
        TaskModel { label: self.task@, identifier: self.command@ }
    }
}

impl Task {
    /// The task of project `project` whose entry is `task`; its identifier is
    /// the project name followed by the trimmed text before the first `|`.
    pub fn new(project: String, task: String) -> (r: Task)
        requires
            has_bar(task@),
        ensures
            r@ == task_model(project@, task@),
    {
        let v = chars_of(task.as_str());
        let p = find_bar(&v, 0, v.len());
        assert(v@.subrange(0, v@.len() as int) =~= task@);
        let (a, b) = trim_range(&v, 0, p);
        assert(v@.subrange(0, p as int) =~= task@.take(bar_index(task@) as int));
        let name = task.as_str().substring_char(a, b);
        let mut command = project;
        command.append(name);
        Task { task, command }
    }
}

/// A group of tasks, named by an unindented line of the report.
#[derive(Debug, Clone)]
pub struct Project {
    pub project: String,
    pub tasks: Vec<Task>,
}

impl View for Project {
    type V = ProjectModel;

    open spec fn view(&self) -> ProjectModel {
        ProjectModel { name: self.project@, tasks: self.tasks@.map_values(|t: Task| t@) }
    }
}

impl Project {
    pub fn new(project: String, tasks: Vec<Task>) -> (r: Project)
        ensures
            r.project@ == project@,
            r.tasks@ == tasks@,
            r@ == (ProjectModel { name: project@, tasks: tasks@.map_values(|t: Task| t@) }),
    {
        Project { project, tasks }
    }
}

/// The whole inventory: the projects of one report, in report order.
#[derive(Debug, Clone)]
pub struct Moon {
    pub projects: Vec<Project>,
}

impl Moon {
    pub fn new(projects: Vec<Project>) -> (r: Moon)
        ensures
            r.projects@ == projects@,
    {
        Moon { projects }
    }
}

impl View for Moon {
    type V = Seq<ProjectModel>;

    open spec fn view(&self) -> Seq<ProjectModel> {
        self.projects@.map_values(|p: Project| p@)
    }
}


/// Why a report could not be read.
#[derive(Debug, Clone, Copy, PartialEq, Eq, Structural)]
pub enum FormatError {
    /// An indented (task) line came before any project line.
    OrphanTask,
    /// A task line holds no `|` between task name and command.
    MissingSeparator,
}

/// The lines of `s`: the pieces between `'\n'` characters. A line may end in
/// `'\r'`, which is white space, and a trailing `'\n'` leaves an empty last line;
/// neither changes how the report reads, since blank lines are skipped.
pub open spec fn lines(s: Seq<char>) -> Seq<Seq<char>>
    decreases s.len(),
{
    if s.len() == 0 {
        seq![Seq::empty()]
    } else {
        let prev = lines(s.drop_last());
        if s.last() == '\n' {
            prev.push(Seq::empty())
        } else {
            prev.update(prev.len() - 1, prev.last().push(s.last()))
        }
    }
}

/// A line with nothing but white space.
pub open spec fn is_blank(line: Seq<char>) -> bool {
    trim(line).len() == 0
}

/// A line that names a project: not blank, not indented by a tab.
pub open spec fn is_header(line: Seq<char>) -> bool {
    !is_blank(line) && line[0] != '\t'
}

/// A line that lists a task: not blank, indented by a tab.
pub open spec fn is_task_line(line: Seq<char>) -> bool {
    !is_blank(line) && line[0] == '\t'
}

/// The projects read so far, after one more line.
pub open spec fn read_line(ps: Seq<ProjectModel>, line: Seq<char>) -> Result<
    Seq<ProjectModel>,
    FormatError,
> {
    if is_blank(line) {
        Ok(ps)
    } else if is_header(line) {
        Ok(ps.push(ProjectModel { name: trim(line), tasks: seq![] }))
    } else if ps.len() == 0 {
        Err(FormatError::OrphanTask)
    } else if !has_bar(trim(line)) {
        Err(FormatError::MissingSeparator)
    } else {
        let p = ps.last();
        Ok(
            ps.update(
                ps.len() - 1,
                ProjectModel { name: p.name, tasks: p.tasks.push(task_model(p.name, trim(line))) },
            ),
        )
    }
}

/// The projects of a report given as its lines; the first malformed line decides
/// the error.
pub open spec fn read_lines(ls: Seq<Seq<char>>) -> Result<Seq<ProjectModel>, FormatError>
    decreases ls.len(),
{
    if ls.len() == 0 {
        Ok(seq![])
    } else {
        match read_lines(ls.drop_last()) {
            Ok(ps) => read_line(ps, ls.last()),
            Err(e) => Err(e),
        }
    }
}

/// The projects of the report `s`.
pub open spec fn parse_report(s: Seq<char>) -> Result<Seq<ProjectModel>, FormatError> {
    read_lines(lines(s))
}

/// Reads the line `v[a..b]` of `text` into `projects`.
fn add_line(projects: &mut Vec<Project>, text: &str, v: &Vec<char>, a: usize, b: usize) -> (r:
    Result<(), FormatError>)
    requires
        v@ == text@,
        a <= b <= v@.len(),
    ensures
        match read_line(old(projects).view().map_values(|p: Project| p@), v@.subrange(a as int, b as int)) {
            Ok(ps) => r is Ok && final(projects).view().map_values(|p: Project| p@) == ps,
            Err(e) => r == Err::<(), FormatError>(e),
        },
{
    let ghost line = v@.subrange(a as int, b as int);
    let (ts, te) = trim_range(v, a, b);
    if ts == te {
        return Ok(());
    }
    assert(line[0] == v@[a as int]);
    if v[a] != '\t' {
        let name = String::from_str(text.substring_char(ts, te));
        let ghost before = projects@;
        let fresh = Project::new(name, Vec::new());
        assert(fresh@.tasks =~= seq![]);
        projects.push(fresh);
        assert(projects@.map_values(|p: Project| p@) =~= before.map_values(|p: Project| p@).push(
            ProjectModel { name: trim(line), tasks: seq![] },
        ));
        return Ok(());
    }
    if projects.len() == 0 {
        return Err(FormatError::OrphanTask);
    }
    let p = find_bar(v, ts, te);
    if p == te {
        return Err(FormatError::MissingSeparator);
    }
    let label = String::from_str(text.substring_char(ts, te));
    let ghost before = projects@;
    let mut last = projects.pop().unwrap();
    let t = Task::new(last.project.clone(), label);
    last.tasks.push(t);
    projects.push(last);
    assert(last.tasks@.map_values(|t: Task| t@) =~= before.last().tasks@.map_values(|t: Task| t@).push(
        task_model(before.last().project@, trim(line)),
    ));
    assert(projects@.map_values(|p: Project| p@) =~= before.map_values(|p: Project| p@).update(
        before.len() - 1,
        ProjectModel { name: before.last().project@, tasks: before.last()@.tasks.push(task_model(before.last().project@, trim(line))) },
    ));
    Ok(())
}


impl Moon {
    /// Reads a task report: each unindented line starts a project, each line
    /// indented by a tab adds a task to the project above it, and blank lines are
    /// skipped. Fails on the first task line that has no project above it or no
    /// `|` in it.
    pub fn generate(tasks: String) -> (r: Result<Moon, FormatError>)
        ensures
            match r {
                Ok(m) => parse_report(tasks@) == Ok::<Seq<ProjectModel>, FormatError>(m@),
                Err(e) => parse_report(tasks@) == Err::<Seq<ProjectModel>, FormatError>(e),
            },
    {
        let text = tasks.as_str();
        let v = chars_of(text);
        let mut projects: Vec<Project> = Vec::new();
        let mut failed: Option<FormatError> = None;
        let mut start: usize = 0;
        let mut i: usize = 0;
        let ghost mut done: Seq<Seq<char>> = seq![];
        assert(v@.take(0) =~= Seq::<char>::empty());
        assert(v@.subrange(0, 0) =~= Seq::<char>::empty());
        assert(projects@.map_values(|p: Project| p@) =~= Seq::<ProjectModel>::empty());
        while i < v.len()
            invariant
                v@ == text@,
                text@ == tasks@,
                start <= i <= v@.len(),
                lines(v@.take(i as int)) == done.push(v@.subrange(start as int, i as int)),
                read_lines(done) == match failed {
                    None => Ok::<Seq<ProjectModel>, FormatError>(projects@.map_values(|p: Project| p@)),
                    Some(e) => Err(e),
                },
            decreases v.len() - i,
        {
            assert(v@.take(i + 1).drop_last() =~= v@.take(i as int));
            if v[i] == '\n' {
                let ghost line = v@.subrange(start as int, i as int);
                if failed.is_none() {
                    match add_line(&mut projects, text, &v, start, i) {
                        Ok(()) => {},
                        Err(e) => {
                            failed = Some(e);
                        },
                    }
                }
                proof {
                    assert(done.push(line).drop_last() =~= done);
                    assert(v@.subrange(i + 1, i + 1) =~= Seq::<char>::empty());
                    done = done.push(line);
                }
                start = i + 1;
            } else {
                assert(v@.subrange(start as int, i as int).push(v@[i as int]) =~= v@.subrange(
                    start as int,
                    i + 1,
                ));
                assert(done.push(v@.subrange(start as int, i as int)).update(
                    done.len() as int,
                    v@.subrange(start as int, i as int).push(v@[i as int]),
                ) =~= done.push(v@.subrange(start as int, i + 1)));
            }
            i = i + 1;
        }
        let ghost line = v@.subrange(start as int, i as int);
        assert(v@.take(i as int) =~= tasks@);
        assert(done.push(line).drop_last() =~= done);
        if failed.is_none() {
            match add_line(&mut projects, text, &v, start, i) {
                Ok(()) => {},
                Err(e) => {
                    failed = Some(e);
                },
            }
        }
        match failed {
            None => Ok(Moon::new(projects)),
            Some(e) => Err(e),
        }
    }
}


/// The report's outline: for each project line, in order, its trimmed text and
/// the number of task lines that follow it before the next project line.
pub open spec fn outline(ls: Seq<Seq<char>>) -> Seq<(Seq<char>, nat)>
    decreases ls.len(),
{
    if ls.len() == 0 {
        seq![]
    } else {
        let prev = outline(ls.drop_last());
        let line = ls.last();
        if is_header(line) {
            prev.push((trim(line), 0nat))
        } else if is_task_line(line) && prev.len() > 0 {
            prev.update(prev.len() - 1, (prev.last().0, prev.last().1 + 1))
        } else {
            prev
        }
    }
}

/// Every task of `ps` carries the identifier made of its project's name and its
/// own task name.
pub open spec fn identifiers_derived(ps: Seq<ProjectModel>) -> bool {
    forall|i: int, j: int|
        0 <= i < ps.len() && 0 <= j < ps[i].tasks.len() ==> #[trigger] ps[i].tasks[j]
            == task_model(ps[i].name, ps[i].tasks[j].label)
}

proof fn lemma_read_lines_shape(ls: Seq<Seq<char>>)
    requires
        read_lines(ls) is Ok,
    ensures
        read_lines(ls)->Ok_0.len() == outline(ls).len(),
        forall|i: int|
            0 <= i < outline(ls).len() ==> #[trigger] read_lines(ls)->Ok_0[i].name == outline(ls)[i].0
                && read_lines(ls)->Ok_0[i].tasks.len() == outline(ls)[i].1,
        identifiers_derived(read_lines(ls)->Ok_0),
    decreases ls.len(),
{
    if ls.len() > 0 {
        lemma_read_lines_shape(ls.drop_last());
        let ps = read_lines(ls.drop_last())->Ok_0;
        let qs = read_lines(ls)->Ok_0;
        let line = ls.last();
        if !is_blank(line) && !is_header(line) {
            assert forall|i: int, j: int|
                0 <= i < qs.len() && 0 <= j < qs[i].tasks.len() implies #[trigger] qs[i].tasks[j]
                == task_model(qs[i].name, qs[i].tasks[j].label) by {
                if i < ps.len() - 1 {
                    assert(qs[i] == ps[i]);
                } else if j < ps[i].tasks.len() {
                    assert(qs[i].tasks[j] == ps[i].tasks[j]);
                }
            }
        } else if is_header(line) {
            assert forall|i: int, j: int|
                0 <= i < qs.len() && 0 <= j < qs[i].tasks.len() implies #[trigger] qs[i].tasks[j]
                == task_model(qs[i].name, qs[i].tasks[j].label) by {
                assert(qs[i] == ps[i]);
            }
        }
    }
}

/// Project count and task counts: a well-formed report gives one project per
/// project line, in the order of those lines and named by their trimmed text,
/// and each project has as many tasks as task lines follow its project line.
pub proof fn lemma_counts_follow_lines(s: Seq<char>)
    requires
        parse_report(s) is Ok,
    ensures
        parse_report(s)->Ok_0.len() == outline(lines(s)).len(),
        forall|i: int|
            0 <= i < outline(lines(s)).len() ==> #[trigger] parse_report(s)->Ok_0[i].name == outline(
                lines(s),
            )[i].0 && parse_report(s)->Ok_0[i].tasks.len() == outline(lines(s))[i].1,
{
    lemma_read_lines_shape(lines(s));
}

proof fn lemma_trim_start_edge(s: Seq<char>)
    ensures
        trim_start(s).len() > 0 ==> !is_ws(trim_start(s)[0]),
        trim_start(s).len() > 0 ==> trim_start(s).last() == s.last(),
    decreases s.len(),
{
    if s.len() > 0 && is_ws(s[0]) {
        lemma_trim_start_edge(s.drop_first());
    }
}

proof fn lemma_trim_end_edge(s: Seq<char>)
    ensures
        trim_end(s).len() > 0 ==> !is_ws(trim_end(s).last()),
        trim_end(s).len() > 0 ==> trim_end(s)[0] == s[0],
    decreases s.len(),
{
    if s.len() > 0 && is_ws(s.last()) {
        lemma_trim_end_edge(s.drop_last());
    }
}

/// A trimmed text neither starts nor ends with white space.
pub proof fn lemma_trim_edges(s: Seq<char>)
    ensures
        trim(s).len() > 0 ==> !is_ws(trim(s)[0]) && !is_ws(trim(s).last()),
{
    lemma_trim_start_edge(s);
    lemma_trim_end_edge(trim_start(s));
}

/// Each task's identifier is its project's name followed by the text before the
/// task entry's first `|`, trimmed, so that no white space stands at either end
/// of that part.
pub proof fn lemma_identifier_shape(s: Seq<char>, i: int, j: int)
    requires
        parse_report(s) is Ok,
        0 <= i < parse_report(s)->Ok_0.len(),
        0 <= j < parse_report(s)->Ok_0[i].tasks.len(),
    ensures
        ({
            let p = parse_report(s)->Ok_0[i];
            let name = task_name(p.tasks[j].label);
            &&& p.tasks[j].identifier == p.name + name
            &&& name == trim(p.tasks[j].label.take(bar_index(p.tasks[j].label) as int))
            &&& name.len() > 0 ==> !is_ws(name[0]) && !is_ws(name.last())
        }),
{
    lemma_read_lines_shape(lines(s));
    let p = parse_report(s)->Ok_0[i];
    assert(p.tasks[j] == task_model(p.name, p.tasks[j].label));
    lemma_trim_edges(p.tasks[j].label.take(bar_index(p.tasks[j].label) as int));
}


/// Distinct identifiers: where no project name holds `:`, every task name starts
/// with `:` and no two tasks share both project name and task name, all task
/// identifiers differ, and none equals a project name.
pub proof fn lemma_identifiers_unique(s: Seq<char>)
    requires
        parse_report(s) is Ok,
        forall|i: int|
            0 <= i < parse_report(s)->Ok_0.len() ==> !(#[trigger] parse_report(s)->Ok_0[i]).name.contains(
                ':',
            ),
        forall|i: int, j: int|
            0 <= i < parse_report(s)->Ok_0.len() && 0 <= j < parse_report(s)->Ok_0[i].tasks.len()
                ==> task_name(#[trigger] parse_report(s)->Ok_0[i].tasks[j].label).len() > 0 && task_name(
                parse_report(s)->Ok_0[i].tasks[j].label,
            )[0] == ':',
        forall|i1: int, j1: int, i2: int, j2: int|
            0 <= i1 < parse_report(s)->Ok_0.len() && 0 <= j1 < parse_report(s)->Ok_0[i1].tasks.len()
                && 0 <= i2 < parse_report(s)->Ok_0.len() && 0 <= j2 < parse_report(
                s,
            )->Ok_0[i2].tasks.len() && (i1 != i2 || j1 != j2) ==> (parse_report(s)->Ok_0[i1].name,
            task_name(#[trigger] parse_report(s)->Ok_0[i1].tasks[j1].label)) != (parse_report(
                s,
            )->Ok_0[i2].name, task_name(#[trigger] parse_report(s)->Ok_0[i2].tasks[j2].label)),
    ensures
        forall|i1: int, j1: int, i2: int, j2: int|
            0 <= i1 < parse_report(s)->Ok_0.len() && 0 <= j1 < parse_report(s)->Ok_0[i1].tasks.len()
                && 0 <= i2 < parse_report(s)->Ok_0.len() && 0 <= j2 < parse_report(
                s,
            )->Ok_0[i2].tasks.len() && (i1 != i2 || j1 != j2) ==> (#[trigger] parse_report(
                s,
            )->Ok_0[i1].tasks[j1]).identifier != (#[trigger] parse_report(
                s,
            )->Ok_0[i2].tasks[j2]).identifier,
        forall|i1: int, i2: int, j: int|
            0 <= i1 < parse_report(s)->Ok_0.len() && 0 <= i2 < parse_report(s)->Ok_0.len() && 0 <= j
                < parse_report(s)->Ok_0[i2].tasks.len() ==> (#[trigger] parse_report(
                s,
            )->Ok_0[i1]).name != (#[trigger] parse_report(s)->Ok_0[i2].tasks[j]).identifier,
{
    let ps = parse_report(s)->Ok_0;
    lemma_read_lines_shape(lines(s));
    assert forall|i1: int, j1: int, i2: int, j2: int|
        0 <= i1 < ps.len() && 0 <= j1 < ps[i1].tasks.len() && 0 <= i2 < ps.len() && 0 <= j2
            < ps[i2].tasks.len() && (i1 != i2 || j1 != j2) implies (#[trigger] ps[i1].tasks[j1]).identifier
        != (#[trigger] ps[i2].tasks[j2]).identifier by {
        let n1 = ps[i1].name;
        let n2 = ps[i2].name;
        let t1 = task_name(ps[i1].tasks[j1].label);
        let t2 = task_name(ps[i2].tasks[j2].label);
        assert(ps[i1].tasks[j1] == task_model(n1, ps[i1].tasks[j1].label));
        assert(ps[i2].tasks[j2] == task_model(n2, ps[i2].tasks[j2].label));
        assert((n1, t1) != (n2, t2));
        if n1 + t1 == n2 + t2 {
            if n1.len() < n2.len() {
                assert((n1 + t1)[n1.len() as int] == ':');
                assert(n2.contains(n2[n1.len() as int]));
            } else if n2.len() < n1.len() {
                assert((n2 + t2)[n2.len() as int] == ':');
                assert(n1.contains(n1[n2.len() as int]));
            } else {
                assert(n1 =~= (n1 + t1).take(n1.len() as int));
                assert(n2 =~= (n2 + t2).take(n2.len() as int));
                assert(t1 =~= (n1 + t1).skip(n1.len() as int));
                assert(t2 =~= (n2 + t2).skip(n2.len() as int));
            }
        }
    }
    assert forall|i1: int, i2: int, j: int|
        0 <= i1 < ps.len() && 0 <= i2 < ps.len() && 0 <= j < ps[i2].tasks.len() implies (
    #[trigger] ps[i1]).name != (#[trigger] ps[i2].tasks[j]).identifier by {
        let n2 = ps[i2].name;
        let t2 = task_name(ps[i2].tasks[j].label);
        assert(ps[i2].tasks[j] == task_model(n2, ps[i2].tasks[j].label));
        assert((n2 + t2)[n2.len() as int] == ':');
        if ps[i1].name == n2 + t2 {
            assert(ps[i1].name.contains(ps[i1].name[n2.len() as int]));
        }
    }
}

/// Reading is a function of the text: the same report always gives the same
/// projects, tasks and error, in the same order.
pub proof fn lemma_parse_deterministic(s: Seq<char>, t: Seq<char>)
    requires
        s == t,
    ensures
        parse_report(s) == parse_report(t),
{
}

proof fn lemma_bad_line_fails(ls: Seq<Seq<char>>, k: int)
    requires
        0 <= k < ls.len(),
        is_task_line(ls[k]),
        !has_bar(trim(ls[k])),
    ensures
        read_lines(ls) is Err,
    decreases ls.len(),
{
    if k < ls.len() - 1 {
        lemma_bad_line_fails(ls.drop_last(), k);
    }
}

proof fn lemma_trim_start_within(s: Seq<char>, c: char)
    ensures
        trim_start(s).contains(c) ==> s.contains(c),
    decreases s.len(),
{
    if s.len() > 0 && is_ws(s[0]) {
        lemma_trim_start_within(s.drop_first(), c);
        if s.drop_first().contains(c) {
            let k = choose|k: int| 0 <= k < s.drop_first().len() && s.drop_first()[k] == c;
            assert(s[k + 1] == c);
        }
    }
}

proof fn lemma_trim_end_within(s: Seq<char>, c: char)
    ensures
        trim_end(s).contains(c) ==> s.contains(c),
    decreases s.len(),
{
    if s.len() > 0 && is_ws(s.last()) {
        lemma_trim_end_within(s.drop_last(), c);
        if s.drop_last().contains(c) {
            let k = choose|k: int| 0 <= k < s.drop_last().len() && s.drop_last()[k] == c;
            assert(s[k] == c);
        }
    }
}

proof fn lemma_bar_found(s: Seq<char>)
    ensures
        has_bar(s) ==> s.contains('|'),
    decreases s.len(),
{
    if s.len() > 0 && s[0] != '|' {
        lemma_bar_found(s.drop_first());
        if has_bar(s) {
            let k = choose|k: int| 0 <= k < s.drop_first().len() && s.drop_first()[k] == '|';
            assert(s[k + 1] == '|');
        }
    } else if s.len() > 0 {
        assert(s[0] == '|');
    }
}

/// A task line without `|` makes the whole report fail to read.
pub proof fn lemma_missing_separator_fails(s: Seq<char>, k: int)
    requires
        0 <= k < lines(s).len(),
        is_task_line(lines(s)[k]),
        !lines(s)[k].contains('|'),
    ensures
        parse_report(s) is Err,
{
    let line = lines(s)[k];
    lemma_bar_found(trim(line));
    lemma_trim_end_within(trim_start(line), '|');
    lemma_trim_start_within(line, '|');
    lemma_bad_line_fails(lines(s), k);
}

} // verus!

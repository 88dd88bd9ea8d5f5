use vstd::prelude::*;

use crate::report::{Moon, Project};

verus! {

/// Rows moved by one page key.
pub const PAGE_STEP: usize = 3;

/// The highlighted node: nothing (the root), a project, or a task of a project.
#[derive(Debug, Clone, Copy, PartialEq, Eq, Structural)]
pub enum Cursor {
    Root,
    Project(usize),
    Task(usize, usize),
}

/// The rows of project `i` as drawn: the project, then its tasks if it is open.
pub open spec fn block(sizes: Seq<nat>, open: Seq<bool>, i: int) -> Seq<Cursor> {
    seq![Cursor::Project(i as usize)] + if open[i] {
        Seq::new(sizes[i], |j: int| Cursor::Task(i as usize, j as usize))
    } else {
        Seq::empty()
    }
}

/// The visible nodes of the first `n` projects, depth first.
pub open spec fn visible_upto(sizes: Seq<nat>, open: Seq<bool>, n: int) -> Seq<Cursor>
    decreases n,
{
    if n <= 0 {
        seq![]
    } else {
        visible_upto(sizes, open, n - 1) + block(sizes, open, n - 1)
    }
}

/// Where the rows of project `i` begin among the visible nodes.
pub open spec fn start(sizes: Seq<nat>, open: Seq<bool>, i: int) -> int {
    visible_upto(sizes, open, i).len() as int
}

/// The number of nodes with every project open.
pub open spec fn node_count(sizes: Seq<nat>) -> nat
    decreases sizes.len(),
{
    if sizes.len() == 0 {
        0
    } else {
        node_count(sizes.drop_last()) + 1 + sizes.last()
    }
}

proof fn lemma_start_step(sizes: Seq<nat>, open: Seq<bool>, i: int)
    requires
        0 <= i,
        i < sizes.len(),
        i < open.len(),
    ensures
        start(sizes, open, i + 1) == start(sizes, open, i) + 1 + (if open[i] {
            sizes[i] as int
        } else {
            0
        }),
{
}

proof fn lemma_start_mono(sizes: Seq<nat>, open: Seq<bool>, i: int, m: int)
    requires
        0 <= i <= m,
    ensures
        start(sizes, open, i) <= start(sizes, open, m),
    decreases m - i,
{
    if i < m {
        lemma_start_mono(sizes, open, i, m - 1);
    }
}

/// Rows of project `i` keep their place in the visible order of any longer prefix.
proof fn lemma_block_in_prefix(sizes: Seq<nat>, open: Seq<bool>, i: int, m: int, t: int)
    requires
        0 <= i < m,
        0 <= t < block(sizes, open, i).len(),
    ensures
        start(sizes, open, i) + t < start(sizes, open, m),
        visible_upto(sizes, open, m)[start(sizes, open, i) + t] == block(sizes, open, i)[t],
    decreases m - i,
{
    if i < m - 1 {
        lemma_block_in_prefix(sizes, open, i, m - 1, t);
    }
}

proof fn lemma_open_count(sizes: Seq<nat>, open: Seq<bool>, n: int)
    requires
        0 <= n <= sizes.len(),
        n <= open.len(),
    ensures
        start(sizes, open, n) <= node_count(sizes.take(n)),
    decreases n,
{
    if n > 0 {
        lemma_open_count(sizes, open, n - 1);
        assert(sizes.take(n).drop_last() =~= sizes.take(n - 1));
    }
}


/// Where the tree's rows are drawn on screen: the first row is at `y`.
#[derive(Debug, Clone, Copy, PartialEq, Eq, Structural)]
pub struct Area {
    pub x: u16,
    pub y: u16,
    pub width: u16,
    pub height: u16,
}

/// Whether `c` names a node of a tree with these task counts and open flags
/// that is visible: a task only while its project is open.
pub open spec fn cursor_ok(sizes: Seq<nat>, open: Seq<bool>, c: Cursor) -> bool {
    match c {
        Cursor::Root => true,
        Cursor::Project(i) => i < sizes.len(),
        Cursor::Task(i, j) => i < sizes.len() && open[i as int] && j < sizes[i as int],
    }
}

/// The place of a node among the visible nodes.
pub open spec fn pos(sizes: Seq<nat>, open: Seq<bool>, c: Cursor) -> int {
    match c {
        Cursor::Root => -1,
        Cursor::Project(i) => start(sizes, open, i as int),
        Cursor::Task(i, j) => start(sizes, open, i as int) + 1 + j,
    }
}

/// The tree of one inventory, with the cursor, the open projects and the
/// scroll offset of its view.
pub struct Navigator {
    moon: Moon,
    open: Vec<bool>,
    cursor: Cursor,
    offset: usize,
    area: Area,
}

/// The number of tasks of each project.
pub open spec fn sizes_of(moon: Moon) -> Seq<nat> {
    Seq::new(moon.projects@.len(), |i: int| moon.projects@[i].tasks@.len())
}

impl Navigator {
    pub open spec fn sizes(&self) -> Seq<nat> {
        sizes_of(self.spec_moon())
    }

    pub closed spec fn spec_moon(&self) -> Moon {
        self.moon
    }

    pub closed spec fn spec_open(&self) -> Seq<bool> {
        self.open@
    }

    pub closed spec fn spec_cursor(&self) -> Cursor {
        self.cursor
    }

    pub closed spec fn spec_offset(&self) -> nat {
        self.offset as nat
    }

    pub closed spec fn spec_area(&self) -> Area {
        self.area
    }

    /// The visible nodes, depth first: each project, then its tasks if it is open.
    pub open spec fn visible(&self) -> Seq<Cursor> {
        visible_upto(sizes_of(self.spec_moon()), self.spec_open(), self.spec_moon().projects@.len() as int)
    }

    /// The place of `c` among the visible nodes.
    pub open spec fn pos_of(&self, c: Cursor) -> int {
        pos(sizes_of(self.spec_moon()), self.spec_open(), c)
    }

    pub open spec fn wf(&self) -> bool {
        &&& self.spec_open().len() == self.spec_moon().projects@.len()
        &&& cursor_ok(sizes_of(self.spec_moon()), self.spec_open(), self.spec_cursor())
        &&& node_count(sizes_of(self.spec_moon())) <= usize::MAX
    }

    proof fn lemma_pos(&self, c: Cursor)
        requires
            self.wf(),
            cursor_ok(self.sizes(), self.open@, c),
        ensures
            self.visible().len() == start(self.sizes(), self.open@, self.moon.projects@.len() as int),
            self.visible().len() <= usize::MAX,
            c != Cursor::Root ==> 0 <= self.pos_of(c) < self.visible().len() && self.visible()[self.pos_of(c)] == c,
    {
        let sz = self.sizes();
        let n = self.moon.projects@.len() as int;
        lemma_open_count(sz, self.open@, n);
        assert(sz.take(n) =~= sz);
        match c {
            Cursor::Root => {},
            Cursor::Project(i) => {
                lemma_block_in_prefix(sz, self.open@, i as int, n, 0);
            },
            Cursor::Task(i, j) => {
                lemma_block_in_prefix(sz, self.open@, i as int, n, 1 + j);
            },
        }
    }

    /// A navigator over `moon` with every project closed and nothing selected;
    /// `None` when the tree has more nodes than `usize` can count.
    pub fn new(moon: Moon) -> (r: Option<Navigator>)
        ensures
            r is Some <==> node_count(sizes_of(moon)) <= usize::MAX,
            r matches Some(nav) ==> nav.wf() && nav.spec_moon() == moon && nav.spec_cursor()
                == Cursor::Root && nav.spec_offset() == 0 && nav.spec_open() == Seq::new(
                moon.projects@.len(),
                |i: int| false,
            ),
    {
        let n = moon.projects.len();
        let mut count: usize = 0;
        let mut open: Vec<bool> = Vec::new();
        let mut i: usize = 0;
        while i < n
            invariant
                n == moon.projects@.len(),
                i <= n,
                count == node_count(sizes_of(moon).take(i as int)),
                open@ == Seq::new(i as nat, |k: int| false),
            decreases n - i,
        {
            proof {
                assert(sizes_of(moon).take(i + 1).drop_last() =~= sizes_of(moon).take(i as int));
                lemma_count_prefix_mono(sizes_of(moon), i + 1, n as int);
                assert(sizes_of(moon).take(n as int) =~= sizes_of(moon));
            }
            let tasks = moon.projects[i].tasks.len();
            if count > usize::MAX - 1 || tasks > usize::MAX - 1 - count {
                return None;
            }
            count = count + 1 + tasks;
            open.push(false);
            i = i + 1;
            assert(open@ =~= Seq::new(i as nat, |k: int| false));
        }
        assert(sizes_of(moon).take(n as int) =~= sizes_of(moon));
        Some(Navigator { moon, open, cursor: Cursor::Root, offset: 0, area: Area { x: 0, y: 0, width: 0, height: 0 } })
    }
}

impl Navigator {
    /// Open flags and cursor after an expand: a closed project opens, an open
    /// one passes the cursor to its first task, the root to the first project.
    pub open spec fn right_step(&self) -> (Seq<bool>, Cursor) {
        let op = self.spec_open();
        match self.spec_cursor() {
            Cursor::Root => (op, if self.spec_moon().projects@.len() > 0 {
                Cursor::Project(0)
            } else {
                Cursor::Root
            }),
            Cursor::Project(i) => if !op[i as int] {
                (op.update(i as int, true), Cursor::Project(i))
            } else if self.sizes()[i as int] > 0 {
                (op, Cursor::Task(i, 0))
            } else {
                (op, Cursor::Project(i))
            },
            Cursor::Task(i, j) => (op, Cursor::Task(i, j)),
        }
    }

    /// Open flags and cursor after a confirm: nothing at the root, otherwise as
    /// after an expand.
    pub open spec fn confirm_step(&self) -> (Seq<bool>, Cursor) {
        if self.spec_cursor() == Cursor::Root {
            (self.spec_open(), Cursor::Root)
        } else {
            self.right_step()
        }
    }

    /// Everything but the cursor is as in `before`.
    pub open spec fn only_cursor_moved(&self, before: Navigator) -> bool {
        &&& self.spec_moon() == before.spec_moon()
        &&& self.spec_open() == before.spec_open()
        &&& self.spec_offset() == before.spec_offset()
        &&& self.spec_area() == before.spec_area()
    }

    /// The node after the cursor in visible order; the first node from the root;
    /// the cursor itself at the last node.
    pub open spec fn next_visible(&self) -> Cursor {
        let vis = self.visible();
        let c = self.spec_cursor();
        if c == Cursor::Root {
            if vis.len() > 0 { vis[0] } else { Cursor::Root }
        } else if self.pos_of(c) + 1 < vis.len() {
            vis[self.pos_of(c) + 1]
        } else {
            c
        }
    }

    /// The node before the cursor in visible order; the last node from the root;
    /// the cursor itself at the first node.
    pub open spec fn prev_visible(&self) -> Cursor {
        let vis = self.visible();
        let c = self.spec_cursor();
        if c == Cursor::Root {
            if vis.len() > 0 { vis.last() } else { Cursor::Root }
        } else if self.pos_of(c) > 0 {
            vis[self.pos_of(c) - 1]
        } else {
            c
        }
    }

    fn size(&self, i: usize) -> (r: usize)
        requires
            i < self.moon.projects@.len(),
        ensures
            r == self.sizes()[i as int],
    {
        self.moon.projects[i].tasks.len()
    }

    /// The last visible node of project `i`.
    fn last_of(&self, i: usize) -> (r: Cursor)
        requires
            self.wf(),
            i < self.moon.projects@.len(),
        ensures
            cursor_ok(self.sizes(), self.open@, r),
            self.pos_of(r) == start(self.sizes(), self.open@, i + 1) - 1,
            r matches Cursor::Project(k) ==> k == i,
            r matches Cursor::Task(k, _) ==> k == i,
    {
        proof {
            lemma_start_step(self.sizes(), self.open@, i as int);
        }
        let m = self.size(i);
        if self.open[i] && m > 0 {
            Cursor::Task(i, m - 1)
        } else {
            Cursor::Project(i)
        }
    }

    /// Moves the cursor to the next visible node.
    pub fn key_down(&mut self) -> (changed: bool)
        requires
            old(self).wf(),
        ensures
            final(self).wf(),
            final(self).only_cursor_moved(*old(self)),
            final(self).spec_cursor() == old(self).next_visible(),
            changed == (final(self).spec_cursor() != old(self).spec_cursor()),
    {
        let n = self.moon.projects.len();
        let ghost sz = self.sizes();
        let ghost op = self.open@;
        let c = self.cursor;
        proof {
            self.lemma_pos(c);
        }
        let next = match c {
            Cursor::Root => if n > 0 {
                Cursor::Project(0)
            } else {
                Cursor::Root
            },
            Cursor::Project(i) => {
                proof {
                    lemma_start_step(sz, op, i as int);
                    lemma_start_mono(sz, op, i + 1, n as int);
                }
                if self.open[i] && self.size(i) > 0 {
                    Cursor::Task(i, 0)
                } else if i + 1 < n {
                    Cursor::Project(i + 1)
                } else {
                    c
                }
            },
            Cursor::Task(i, j) => {
                proof {
                    lemma_start_step(sz, op, i as int);
                    lemma_start_mono(sz, op, i + 1, n as int);
                }
                if j + 1 < self.size(i) {
                    Cursor::Task(i, j + 1)
                } else if i + 1 < n {
                    Cursor::Project(i + 1)
                } else {
                    c
                }
            },
        };
        proof {
            self.lemma_pos(next);
            if n > 0 {
                lemma_start_step(sz, op, 0);
                lemma_start_mono(sz, op, 1, n as int);
            }
        }
        self.cursor = next;
        next != c
    }

    /// Moves the cursor to the previous visible node.
    pub fn key_up(&mut self) -> (changed: bool)
        requires
            old(self).wf(),
        ensures
            final(self).wf(),
            final(self).only_cursor_moved(*old(self)),
            final(self).spec_cursor() == old(self).prev_visible(),
            changed == (final(self).spec_cursor() != old(self).spec_cursor()),
    {
        let n = self.moon.projects.len();
        let ghost sz = self.sizes();
        let ghost op = self.open@;
        let c = self.cursor;
        proof {
            self.lemma_pos(c);
        }
        let next = match c {
            Cursor::Root => if n > 0 {
                self.last_of(n - 1)
            } else {
                Cursor::Root
            },
            Cursor::Project(i) => {
                if i > 0 {
                    self.last_of(i - 1)
                } else {
                    c
                }
            },
            Cursor::Task(i, j) => {
                if j > 0 {
                    Cursor::Task(i, j - 1)
                } else {
                    Cursor::Project(i)
                }
            },
        };
        proof {
            self.lemma_pos(next);
            if n > 0 {
                lemma_start_step(sz, op, 0);
                lemma_start_mono(sz, op, 1, n as int);
            }
        }
        self.cursor = next;
        next != c
    }
}

impl Navigator {
    /// Flips the open flag of the project under the cursor; does nothing on a
    /// task or the root.
    pub fn toggle_selected(&mut self) -> (changed: bool)
        requires
            old(self).wf(),
        ensures
            final(self).wf(),
            final(self).spec_moon() == old(self).spec_moon(),
            final(self).spec_cursor() == old(self).spec_cursor(),
            final(self).spec_offset() == old(self).spec_offset(),
            final(self).spec_area() == old(self).spec_area(),
            match old(self).spec_cursor() {
                Cursor::Project(i) => changed && final(self).spec_open() == old(self).spec_open().update(
                    i as int,
                    !old(self).spec_open()[i as int],
                ),
                _ => !changed && final(self).spec_open() == old(self).spec_open(),
            },
    {
        match self.cursor {
            Cursor::Project(i) => {
                let flag = self.open[i];
                self.open.set(i, !flag);
                true
            },
            _ => false,
        }
    }

    /// Closes the project under the cursor if it is open; otherwise moves the
    /// cursor to its parent (from a project to the root).
    pub fn key_left(&mut self) -> (changed: bool)
        requires
            old(self).wf(),
        ensures
            final(self).wf(),
            final(self).spec_moon() == old(self).spec_moon(),
            final(self).spec_offset() == old(self).spec_offset(),
            final(self).spec_area() == old(self).spec_area(),
            match old(self).spec_cursor() {
                Cursor::Root => !changed && final(self).spec_cursor() == Cursor::Root
                    && final(self).spec_open() == old(self).spec_open(),
                Cursor::Project(i) => changed && if old(self).spec_open()[i as int] {
                    final(self).spec_open() == old(self).spec_open().update(i as int, false)
                        && final(self).spec_cursor() == Cursor::Project(i)
                } else {
                    final(self).spec_open() == old(self).spec_open() && final(self).spec_cursor()
                        == Cursor::Root
                },
                Cursor::Task(i, _) => changed && final(self).spec_cursor() == Cursor::Project(i)
                    && final(self).spec_open() == old(self).spec_open(),
            },
    {
        match self.cursor {
            Cursor::Root => false,
            Cursor::Project(i) => {
                if self.open[i] {
                    self.open.set(i, false);
                } else {
                    self.cursor = Cursor::Root;
                }
                true
            },
            Cursor::Task(i, _) => {
                self.cursor = Cursor::Project(i);
                true
            },
        }
    }

    /// Opens the project under the cursor if it is closed; otherwise moves the
    /// cursor to its first child (from the root to the first project). A task,
    /// or a project without tasks that is open, stays as it is.
    pub fn key_right(&mut self) -> (changed: bool)
        requires
            old(self).wf(),
        ensures
            final(self).wf(),
            final(self).spec_moon() == old(self).spec_moon(),
            final(self).spec_offset() == old(self).spec_offset(),
            final(self).spec_area() == old(self).spec_area(),
            (final(self).spec_open(), final(self).spec_cursor()) == old(self).right_step(),
            changed == (old(self).right_step() != (old(self).spec_open(), old(self).spec_cursor())),
    {
        match self.cursor {
            Cursor::Root => {
                if self.moon.projects.len() > 0 {
                    self.cursor = Cursor::Project(0);
                    true
                } else {
                    false
                }
            },
            Cursor::Project(i) => {
                if !self.open[i] {
                    self.open.set(i, true);
                    true
                } else if self.size(i) > 0 {
                    self.cursor = Cursor::Task(i, 0);
                    true
                } else {
                    false
                }
            },
            Cursor::Task(_, _) => false,
        }
    }

    /// Clears the selection: the cursor goes back to the root.
    pub fn clear_selection(&mut self) -> (changed: bool)
        requires
            old(self).wf(),
        ensures
            final(self).wf(),
            final(self).only_cursor_moved(*old(self)),
            final(self).spec_cursor() == Cursor::Root,
            changed == (old(self).spec_cursor() != Cursor::Root),
    {
        let changed = self.cursor != Cursor::Root;
        self.cursor = Cursor::Root;
        changed
    }

    /// Moves the cursor to the first visible node.
    pub fn select_first(&mut self) -> (changed: bool)
        requires
            old(self).wf(),
        ensures
            final(self).wf(),
            final(self).only_cursor_moved(*old(self)),
            final(self).spec_cursor() == if old(self).visible().len() > 0 {
                old(self).visible()[0]
            } else {
                Cursor::Root
            },
            changed == (final(self).spec_cursor() != old(self).spec_cursor()),
    {
        let n = self.moon.projects.len();
        let next = if n > 0 {
            Cursor::Project(0)
        } else {
            Cursor::Root
        };
        proof {
            self.lemma_pos(next);
        }
        let changed = next != self.cursor;
        self.cursor = next;
        changed
    }

    /// Moves the cursor to the last visible node.
    pub fn select_last(&mut self) -> (changed: bool)
        requires
            old(self).wf(),
        ensures
            final(self).wf(),
            final(self).only_cursor_moved(*old(self)),
            final(self).spec_cursor() == if old(self).visible().len() > 0 {
                old(self).visible().last()
            } else {
                Cursor::Root
            },
            changed == (final(self).spec_cursor() != old(self).spec_cursor()),
    {
        let n = self.moon.projects.len();
        let next = if n > 0 {
            self.last_of(n - 1)
        } else {
            Cursor::Root
        };
        proof {
            self.lemma_pos(next);
            if n > 0 {
                lemma_start_step(self.sizes(), self.open@, 0);
                lemma_start_mono(self.sizes(), self.open@, 1, n as int);
            }
        }
        let changed = next != self.cursor;
        self.cursor = next;
        changed
    }
}

/// `a + b`, or `usize::MAX` when that is larger.
pub open spec fn sat_add(a: int, b: int) -> int {
    if a + b > usize::MAX { usize::MAX as int } else { a + b }
}

impl Navigator {
    /// The greatest scroll offset: the place of the last visible node.
    pub open spec fn last_offset(&self) -> int {
        if self.visible().len() > 0 { self.visible().len() - 1 } else { 0 }
    }

    /// The place among the visible nodes of the row at screen row `row` and
    /// column `column`, when that point lies inside the drawn area.
    pub open spec fn row_at(&self, column: u16, row: u16) -> Option<int> {
        let a = self.spec_area();
        if a.x <= column < a.x + a.width && a.y <= row < a.y + a.height {
            Some(self.spec_offset() + (row - a.y))
        } else {
            None
        }
    }

    /// The number of visible nodes.
    pub fn visible_len(&self) -> (r: usize)
        requires
            self.wf(),
        ensures
            r == self.visible().len(),
    {
        let n = self.moon.projects.len();
        let ghost sz = self.sizes();
        let mut acc: usize = 0;
        let mut i: usize = 0;
        proof {
            self.lemma_pos(Cursor::Root);
        }
        while i < n
            invariant
                self.wf(),
                n == self.moon.projects@.len(),
                sz == self.sizes(),
                i <= n,
                acc == start(sz, self.open@, i as int),
                start(sz, self.open@, n as int) <= usize::MAX,
            decreases n - i,
        {
            proof {
                lemma_start_step(sz, self.open@, i as int);
                lemma_start_mono(sz, self.open@, i + 1, n as int);
            }
            if self.open[i] {
                acc = acc + 1 + self.size(i);
            } else {
                acc = acc + 1;
            }
            i = i + 1;
        }
        acc
    }

    /// The visible node at place `k`, or the root when there is none.
    pub fn node_at(&self, k: usize) -> (r: Cursor)
        requires
            self.wf(),
        ensures
            r == if k < self.visible().len() {
                self.visible()[k as int]
            } else {
                Cursor::Root
            },
            cursor_ok(self.sizes(), self.spec_open(), r),
            (r == Cursor::Root) == (k >= self.visible().len()),
    {
        let n = self.moon.projects.len();
        let ghost sz = self.sizes();
        let mut acc: usize = 0;
        let mut i: usize = 0;
        proof {
            self.lemma_pos(Cursor::Root);
        }
        while i < n
            invariant
                self.wf(),
                n == self.moon.projects@.len(),
                sz == self.sizes(),
                i <= n,
                acc == start(sz, self.open@, i as int),
                acc <= k,
                start(sz, self.open@, n as int) <= usize::MAX,
                self.visible().len() == start(sz, self.open@, n as int),
            decreases n - i,
        {
            proof {
                lemma_start_step(sz, self.open@, i as int);
                lemma_start_mono(sz, self.open@, i + 1, n as int);
            }
            let len = if self.open[i] {
                1 + self.size(i)
            } else {
                1
            };
            if k - acc < len {
                proof {
                    lemma_block_in_prefix(sz, self.open@, i as int, n as int, k - acc);
                }
                if k == acc {
                    return Cursor::Project(i);
                } else {
                    return Cursor::Task(i, k - acc - 1);
                }
            }
            acc = acc + len;
            i = i + 1;
        }
        Cursor::Root
    }

    /// Scrolls the view down by `lines` rows, no further than the last node.
    pub fn scroll_down(&mut self, lines: usize) -> (changed: bool)
        requires
            old(self).wf(),
        ensures
            final(self).wf(),
            final(self).spec_moon() == old(self).spec_moon(),
            final(self).spec_open() == old(self).spec_open(),
            final(self).spec_cursor() == old(self).spec_cursor(),
            final(self).spec_area() == old(self).spec_area(),
            final(self).spec_offset() == if sat_add(old(self).spec_offset() as int, lines as int)
                < old(self).last_offset() {
                sat_add(old(self).spec_offset() as int, lines as int)
            } else {
                old(self).last_offset()
            },
            changed == (final(self).spec_offset() != old(self).spec_offset()),
    {
        let len = self.visible_len();
        let last = if len > 0 {
            len - 1
        } else {
            0
        };
        let before = self.offset;
        let target = self.offset.saturating_add(lines);
        self.offset = if target < last {
            target
        } else {
            last
        };
        self.offset != before
    }

    /// Scrolls the view up by `lines` rows, no further than the top.
    pub fn scroll_up(&mut self, lines: usize) -> (changed: bool)
        requires
            old(self).wf(),
        ensures
            final(self).wf(),
            final(self).spec_moon() == old(self).spec_moon(),
            final(self).spec_open() == old(self).spec_open(),
            final(self).spec_cursor() == old(self).spec_cursor(),
            final(self).spec_area() == old(self).spec_area(),
            final(self).spec_offset() == if old(self).spec_offset() >= lines {
                old(self).spec_offset() - lines
            } else {
                0
            },
            changed == (final(self).spec_offset() != old(self).spec_offset()),
    {
        let before = self.offset;
        self.offset = self.offset.saturating_sub(lines);
        self.offset != before
    }

    /// Moves the cursor to the node drawn at screen position (`column`, `row`),
    /// if there is one; otherwise nothing changes.
    pub fn click_at(&mut self, column: u16, row: u16) -> (changed: bool)
        requires
            old(self).wf(),
        ensures
            final(self).wf(),
            final(self).only_cursor_moved(*old(self)),
            final(self).spec_cursor() == match old(self).row_at(column, row) {
                Some(k) => if k < old(self).visible().len() {
                    old(self).visible()[k]
                } else {
                    old(self).spec_cursor()
                },
                None => old(self).spec_cursor(),
            },
            changed == (final(self).spec_cursor() != old(self).spec_cursor()),
    {
        let a = self.area;
        if column < a.x || column - a.x >= a.width || row < a.y || row - a.y >= a.height {
            return false;
        }
        let dy = (row - a.y) as usize;
        if self.offset > usize::MAX - dy {
            proof {
                self.lemma_pos(Cursor::Root);
            }
            return false;
        }
        let node = self.node_at(self.offset + dy);
        if node == Cursor::Root {
            return false;
        }
        let changed = node != self.cursor;
        self.cursor = node;
        changed
    }

    /// Records where the tree's rows are drawn, for mapping clicks to nodes.
    pub fn set_area(&mut self, area: Area)
        requires
            old(self).wf(),
        ensures
            final(self).wf(),
            final(self).spec_moon() == old(self).spec_moon(),
            final(self).spec_open() == old(self).spec_open(),
            final(self).spec_cursor() == old(self).spec_cursor(),
            final(self).spec_offset() == old(self).spec_offset(),
            final(self).spec_area() == area,
    {
        self.area = area;
    }
}

/// The identifier of node `c` of the projects `ps`: a project's name, or a
/// task's identifier; none for the root.
pub open spec fn node_identifier(ps: Seq<crate::report::ProjectModel>, c: Cursor) -> Option<Seq<char>> {
    match c {
        Cursor::Root => None,
        Cursor::Project(i) => Some(ps[i as int].name),
        Cursor::Task(i, j) => Some(ps[i as int].tasks[j as int].identifier),
    }
}

impl Navigator {
    /// The identifier of the node `c`.
    pub fn identifier(&self, c: Cursor) -> (r: Option<String>)
        requires
            self.wf(),
            cursor_ok(self.sizes(), self.spec_open(), c),
        ensures
            r is None <==> c == Cursor::Root,
            r matches Some(s) ==> node_identifier(self.spec_moon()@, c) == Some(s@),
    {
        match c {
            Cursor::Root => None,
            Cursor::Project(i) => Some(self.moon.projects[i].project.clone()),
            Cursor::Task(i, j) => {
                let p: &Project = &self.moon.projects[i];
                Some(p.tasks[j].command.clone())
            },
        }
    }

    /// With nothing selected, does nothing and hands out nothing; otherwise
    /// expands as `key_right` does and hands out the identifier of the node then
    /// under the cursor.
    pub fn confirm(&mut self) -> (r: Option<String>)
        requires
            old(self).wf(),
        ensures
            final(self).wf(),
            final(self).spec_moon() == old(self).spec_moon(),
            final(self).spec_offset() == old(self).spec_offset(),
            final(self).spec_area() == old(self).spec_area(),
            (final(self).spec_open(), final(self).spec_cursor()) == old(self).confirm_step(),
            r is None <==> final(self).spec_cursor() == Cursor::Root,
            r matches Some(s) ==> node_identifier(old(self).spec_moon()@, final(self).spec_cursor())
                == Some(s@),
    {
        if self.cursor == Cursor::Root {
            return None;
        }
        self.key_right();
        self.identifier(self.cursor)
    }

    pub fn cursor(&self) -> (r: Cursor)
        ensures
            r == self.spec_cursor(),
    {
        self.cursor
    }

    pub fn offset(&self) -> (r: usize)
        ensures
            r == self.spec_offset(),
    {
        self.offset
    }

    pub fn is_open(&self, i: usize) -> (r: bool)
        requires
            self.wf(),
            i < self.spec_moon().projects@.len(),
        ensures
            r == self.spec_open()[i as int],
    {
        self.open[i]
    }

    pub fn moon(&self) -> (r: &Moon)
        ensures
            *r == self.spec_moon(),
    {
        &self.moon
    }
}

proof fn lemma_count_prefix_mono(sizes: Seq<nat>, i: int, m: int)
    requires
        0 <= i <= m <= sizes.len(),
    ensures
        node_count(sizes.take(i)) <= node_count(sizes.take(m)),
    decreases m - i,
{
    if i < m {
        lemma_count_prefix_mono(sizes, i, m - 1);
        assert(sizes.take(m).drop_last() =~= sizes.take(m - 1));
    }
}

} // verus!

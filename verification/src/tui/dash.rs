//! The dashboard: every pull request waiting on you, across every repository.

use vstd::prelude::*;
use vstd::string::StringExecFns;
use crate::dash::{dash_rows, Row, RowModel, Status};
use crate::llm::{file_tail, tail_of};
use crate::text::number::{decimal, show, show_usize};
use crate::text::pad::{first_chars, pad, padded, take_chars};
use crate::text::split::texts;
use crate::tui::keys::{Code, Key};
use crate::tui::quiz::{Look, Tone};

verus! {

/// The dashboard.
#[derive(Debug)]
pub struct Dash {
    pub rows: Vec<Row>,
    pub problems: Vec<String>,
    pub selected: usize,
}

/// What the dashboard hands back.
#[derive(Debug)]
pub enum Chosen {
    Quiz(Row),
    Quit,
}

/// What is to be done after a key.
#[derive(Debug)]
pub enum DashAction {
    Stay,
    /// Look for pull requests once more.
    Reload,
    Done(Chosen),
}

/// How a status is shown. Finished work is dimmed, not hidden: visible enough to confirm,
/// quiet enough not to compete with what still wants you.
pub fn status_style(s: &Status) -> (r: Look)
    ensures
        r == match *s {
            Status::Ungated => Look { tone: Tone::Yellow, bold: false, dim: false },
            Status::InProgress { .. } => Look { tone: Tone::Cyan, bold: false, dim: false },
            _ => Look { tone: Tone::DarkGray, bold: false, dim: true },
        },
{
    match s {
        Status::Ungated => Look { tone: Tone::Yellow, bold: false, dim: false },
        Status::InProgress { .. } => Look { tone: Tone::Cyan, bold: false, dim: false },
        _ => Look { tone: Tone::DarkGray, bold: false, dim: true },
    }
}

/// The name of a repository without its owner.
pub fn short_repo(repo: &str) -> (r: String)
    ensures
        r@ == file_tail(repo@),
{
    tail_of(repo)
}

/// A text of at most `n` characters: where it is longer, its front, and a sign that there is
/// more.
pub open spec fn shortened(s: Seq<char>, n: nat) -> Seq<char> {
    if s.len() <= n {
        s
    } else {
        first_chars(s, if n > 0 { (n - 1) as nat } else { 0 }) + "…"@
    }
}

/// A text of at most `n` characters.
pub fn truncate(s: &str, n: usize) -> (r: String)
    ensures
        r@ == shortened(s@, n as nat),
{
    let count: usize = crate::text::chars::to_chars(s).len();
    if count <= n {
        return s.to_owned();
    }
    take_chars(s, if n > 0 { n - 1 } else { 0 }).concat("…")
}

/// A text is shortened to what there is room for.
pub proof fn shortened_texts_fit(s: Seq<char>, n: nat)
    requires
        n > 0,
    ensures
        shortened(s, n).len() <= n,
{
    reveal_strlit("…");
}

/// The cells of a row: repository, number, title, status, coverage.
pub open spec fn cells_of(row: RowModel) -> Seq<Seq<char>> {
    seq![
        padded(file_tail(row.repo), 16),
        "#"@ + padded(decimal(row.pr_number as nat), 6),
        padded(shortened(row.title, 37), 38),
        padded(row.status.text(), 15),
        match row.coverage {
            Some(c) => c,
            None => Seq::empty(),
        },
    ]
}

/// The text of an optional string, nothing where there is none.
fn text_or_nothing(s: &Option<String>) -> (r: String)
    ensures
        r@ == match crate::llm::generate::optional_text(*s) {
            Some(t) => t,
            None => Seq::empty(),
        },
{
    match s {
        Some(s) => s.clone(),
        None => String::new(),
    }
}

/// The cells of a row.
pub fn row_cells(row: &Row) -> (r: Vec<String>)
    ensures
        texts(r@) == cells_of(row@),
{
    let mut cells: Vec<String> = Vec::new();
    cells.push(pad(short_repo(row.repo.as_str()).as_str(), 16));
    cells.push("#".to_owned().concat(pad(show(row.pr_number).as_str(), 6).as_str()));
    cells.push(pad(truncate(row.title.as_str(), 37).as_str(), 38));
    cells.push(pad(row.status.label().as_str(), 15));
    cells.push(text_or_nothing(&row.coverage));
    assert(texts(cells@) =~= cells_of(row@));
    cells
}

/// How many rows want you.
pub open spec fn waiting(rows: Seq<RowModel>) -> nat
    decreases rows.len(),
{
    if rows.len() == 0 {
        0
    } else {
        waiting(rows.drop_last()) + if rows.last().status.asks() {
            1nat
        } else {
            0nat
        }
    }
}

impl Dash {
    /// The selected row is one of the rows, where there are any.
    pub open spec fn wf(self) -> bool {
        self.selected < self.rows@.len() || self.selected == 0
    }

    /// The title of the list.
    pub fn title(&self) -> (r: String)
        ensures
            r@ == " shipgate · "@ + decimal(waiting(dash_rows(self.rows@))) + " waiting on you · "@
                + decimal(self.rows@.len()) + " PRs "@,
    {
        let ghost rows = dash_rows(self.rows@);
        let mut n: usize = 0;
        let mut i: usize = 0;
        proof {
            assert(rows.take(0) =~= Seq::empty());
        }
        while i < self.rows.len()
            invariant
                i <= self.rows@.len(),
                n <= i,
                rows == dash_rows(self.rows@),
                n == waiting(rows.take(i as int)),
            decreases self.rows@.len() - i,
        {
            proof {
                assert(rows.take(i + 1).drop_last() =~= rows.take(i as int));
                assert(rows.take(i + 1).last() == self.rows@[i as int]@);
            }
            if self.rows[i].status.needs_you() {
                n += 1;
            }
            i += 1;
        }
        proof {
            assert(rows.take(i as int) =~= rows);
        }
        " shipgate · ".to_owned().concat(show_usize(n).as_str()).concat(
            " waiting on you · ",
        ).concat(show_usize(self.rows.len()).as_str()).concat(" PRs ")
    }

    /// The line below the list: the first problem, where there is one, and the keys.
    pub fn footer(&self) -> (r: String)
        ensures
            r@ == if self.problems@.len() == 0 {
                " enter quiz · r refresh · q quit "@
            } else {
                " "@ + self.problems@[0]@ + " · enter quiz · r refresh · q quit "@
            },
    {
        if self.problems.len() == 0 {
            " enter quiz · r refresh · q quit ".to_owned()
        } else {
            " ".to_owned().concat(self.problems[0].as_str()).concat(
                " · enter quiz · r refresh · q quit ",
            )
        }
    }

    /// Takes in a key, and says what is to be done.
    pub fn on_key(&mut self, key: Key) -> (r: DashAction)
        requires
            old(self).wf(),
        ensures
            final(self).wf(),
            final(self).rows == old(self).rows,
            final(self).problems == old(self).problems,
            ({
                let n = old(self).rows@.len();
                let at = old(self).selected;
                match key.code {
                    Code::Char(c) => if c == 'q' || (c == 'c' && key.ctrl) {
                        r matches DashAction::Done(chosen) && chosen is Quit
                            && final(self).selected == at
                    } else if c == 'j' {
                        r is Stay && final(self).selected == if at + 1 < n {
                            at + 1
                        } else {
                            at as int
                        }
                    } else if c == 'k' {
                        r is Stay && final(self).selected == if at > 0 {
                            at - 1
                        } else {
                            0
                        }
                    } else if c == 'r' {
                        r is Reload && final(self).selected == at
                    } else {
                        r is Stay && final(self).selected == at
                    },
                    Code::Esc => r matches DashAction::Done(chosen) && chosen is Quit
                        && final(self).selected == at,
                    Code::Down => r is Stay && final(self).selected == if at + 1 < n {
                        at + 1
                    } else {
                        at as int
                    },
                    Code::Up => r is Stay && final(self).selected == if at > 0 {
                        at - 1
                    } else {
                        0
                    },
                    Code::Enter => final(self).selected == at && if n > 0 {
                        r matches DashAction::Done(Chosen::Quiz(row)) && row
                            == old(self).rows@[at as int]
                    } else {
                        r is Stay
                    },
                    _ => r is Stay && final(self).selected == at,
                }
            }),
    {
        match key.code {
            Code::Char(c) => {
                if c == 'q' || (c == 'c' && key.ctrl) {
                    return DashAction::Done(Chosen::Quit);
                }
                if c == 'r' {
                    return DashAction::Reload;
                }
                if c == 'j' {
                    self.select_next();
                } else if c == 'k' {
                    self.select_previous();
                }
            },
            Code::Esc => {
                return DashAction::Done(Chosen::Quit);
            },
            Code::Down => {
                self.select_next();
            },
            Code::Up => {
                self.select_previous();
            },
            Code::Enter => {
                if self.selected < self.rows.len() {
                    return DashAction::Done(Chosen::Quiz(self.rows[self.selected].clone()));
                }
            },
            _ => {},
        }
        DashAction::Stay
    }

    fn select_next(&mut self)
        requires
            old(self).wf(),
        ensures
            final(self).rows == old(self).rows,
            final(self).problems == old(self).problems,
            final(self).selected == if old(self).selected + 1 < old(self).rows@.len() {
                old(self).selected + 1
            } else {
                old(self).selected as int
            },
    {
        let n: usize = self.rows.len();
        if n > 0 && self.selected < n - 1 {
            self.selected = self.selected + 1;
        }
    }

    fn select_previous(&mut self)
        ensures
            final(self).rows == old(self).rows,
            final(self).problems == old(self).problems,
            final(self).selected == if old(self).selected > 0 {
                old(self).selected - 1
            } else {
                0
            },
    {
        if self.selected > 0 {
            self.selected = self.selected - 1;
        }
    }

    /// Takes in the rows of another look. The selection stays where it was, as far as there
    /// are rows.
    pub fn reloaded(&mut self, rows: Vec<Row>, problems: Vec<String>)
        ensures
            final(self).wf(),
            final(self).rows == rows,
            final(self).problems == problems,
            final(self).selected == if rows@.len() == 0 {
                0
            } else if old(self).selected < rows@.len() {
                old(self).selected as int
            } else {
                rows@.len() - 1
            },
    {
        let n: usize = rows.len();
        self.rows = rows;
        self.problems = problems;
        if n == 0 {
            self.selected = 0;
        } else if self.selected >= n {
            self.selected = n - 1;
        }
    }
}

/// A row of the list that is printed where there is no terminal.
pub open spec fn listing_text(row: RowModel) -> Seq<char> {
    (if row.status.asks() {
        "*"@
    } else {
        " "@
    }) + " "@ + padded(file_tail(row.repo), 16) + " #"@ + padded(decimal(row.pr_number as nat), 6)
        + " "@ + padded(first_chars(row.title, 40), 40) + " "@ + padded(row.status.text(), 15)
        + " "@ + match row.coverage {
        Some(c) => c,
        None => Seq::empty(),
    }
}

/// A row of the list that is printed where there is no terminal, which keeps the dashboard
/// usable from a script or a pipe.
pub fn listing_line(row: &Row) -> (r: String)
    ensures
        r@ == listing_text(row@),
{
    let mark: &str = if row.status.needs_you() { "*" } else { " " };
    mark.to_owned().concat(" ").concat(pad(short_repo(row.repo.as_str()).as_str(), 16).as_str()).concat(
        " #",
    ).concat(pad(show(row.pr_number).as_str(), 6).as_str()).concat(" ").concat(
        pad(take_chars(row.title.as_str(), 40).as_str(), 40).as_str(),
    ).concat(" ").concat(pad(row.status.label().as_str(), 15).as_str()).concat(" ").concat(
        text_or_nothing(&row.coverage).as_str(),
    )
}

} // verus!

use vstd::prelude::*;
use vstd::string::StrSliceExecFns;
use vstd::string::StringExecFns;

use crate::page::{extract_from_markup, page_parts_of};
use crate::samples::{pairs_view, sample_pairs};
use crate::text::{
    decimal, padded3, parse_usize, push_char, push_decimal, push_padded3, trim_bounds,
    trimmed, usize_of,
};

verus! {

/// A contest: its series and its number within the series.
#[derive(Clone, Copy, Debug, PartialEq, Eq, Structural)]
pub enum ContestKind {
    ABC(usize),
    ARC(usize),
    AGC(usize),
}

/// The samples of one problem: its label and its (input, output) pairs in
/// ascending order of sample number.
pub struct Problem {
    pub diff: String,
    pub expected_in_out: Vec<(String, String)>,
}

/// The samples of every problem of a contest, in problem order.
pub struct Contest {
    pub kind: ContestKind,
    pub problem: Vec<Problem>,
}

/// `c` is the lowercase ASCII letter `l`, in either case.
pub open spec fn folds_to(c: char, l: char) -> bool {
    c == l || (c as u32) + 32 == (l as u32) && 'A' as u32 <= c as u32 && c as u32 <= 'Z' as u32
}

/// What a contest name denotes: trimmed, a three-letter series code in any
/// case, then the contest number as `usize_of` reads it.
pub open spec fn parse_spec(s: Seq<char>) -> Option<ContestKind> {
    let t = trimmed(s);
    if t.len() < 4 || !folds_to(t[0], 'a') || !folds_to(t[2], 'c') {
        None
    } else {
        match usize_of(t.subrange(3, t.len() as int)) {
            None => None,
            Some(n) => if folds_to(t[1], 'b') {
                Some(ContestKind::ABC(n))
            } else if folds_to(t[1], 'r') {
                Some(ContestKind::ARC(n))
            } else if folds_to(t[1], 'g') {
                Some(ContestKind::AGC(n))
            } else {
                None
            },
        }
    }
}

/// The lowercase three-letter code of the series.
pub open spec fn code_spec(k: ContestKind) -> Seq<char> {
    match k {
        ContestKind::ABC(_) => seq!['a', 'b', 'c'],
        ContestKind::ARC(_) => seq!['a', 'r', 'c'],
        ContestKind::AGC(_) => seq!['a', 'g', 'c'],
    }
}

pub open spec fn number_spec(k: ContestKind) -> usize {
    match k {
        ContestKind::ABC(n) => n,
        ContestKind::ARC(n) => n,
        ContestKind::AGC(n) => n,
    }
}

pub open spec fn abcd() -> Seq<Seq<char>> {
    seq![seq!['a'], seq!['b'], seq!['c'], seq!['d']]
}

pub open spec fn abcdef() -> Seq<Seq<char>> {
    abcd() + seq![seq!['e'], seq!['f']]
}

pub open spec fn cdef() -> Seq<Seq<char>> {
    seq![seq!['c'], seq!['d'], seq!['e'], seq!['f']]
}

/// The problem labels of a contest, in order.
pub open spec fn problem_list_spec(k: ContestKind) -> Seq<Seq<char>> {
    match k {
        ContestKind::ABC(n) => if n <= 125 {
            abcd()
        } else {
            abcdef()
        },
        ContestKind::ARC(n) => if n <= 57 {
            abcd()
        } else if n <= 103 {
            cdef()
        } else {
            abcd()
        },
        ContestKind::AGC(n) => Seq::new(n as nat, |i: int| seq!['A', 'G', 'C'] + decimal(i as nat)),
    }
}

/// The page of problem `label` of contest `k`.
pub open spec fn url_spec(k: ContestKind, label: Seq<char>) -> Seq<char> {
    let id = code_spec(k) + padded3(number_spec(k) as nat);
    "https://atcoder.jp/contests/"@ + id + "/tasks/"@ + id + seq!['_'] + label
}

fn char_string(c: char) -> (r: String)
    ensures
        r@ == seq![c],
{
    let mut s = String::new();
    push_char(&mut s, c);
    assert(s@ =~= seq![c]);
    s
}

fn letter_strings(first: char, count: usize) -> (r: Vec<String>)
    requires
        first == 'a' || first == 'c',
        count == 4 || count == 6,
    ensures
        r@.len() == count,
        forall|i: int| 0 <= i < count ==> #[trigger] r@[i]@ == seq![((first as u32) + i) as char],
{
    let mut r: Vec<String> = Vec::new();
    let mut i: usize = 0;
    while i < count
        invariant
            first == 'a' || first == 'c',
            count == 4 || count == 6,
            i <= count,
            r@.len() == i,
            forall|j: int| 0 <= j < i ==> #[trigger] r@[j]@ == seq![((first as u32) + j) as char],
        decreases count - i,
    {
        let c = ((first as u32) + (i as u32)) as u8 as char;
        r.push(char_string(c));
        i = i + 1;
    }
    r
}

fn series_code(s: &mut String, k: &ContestKind)
    ensures
        final(s)@ == old(s)@ + code_spec(*k),
{
    push_char(s, 'a');
    match k {
        ContestKind::ABC(_) => push_char(s, 'b'),
        ContestKind::ARC(_) => push_char(s, 'r'),
        ContestKind::AGC(_) => push_char(s, 'g'),
    }
    push_char(s, 'c');
    assert(final(s)@ =~= old(s)@ + code_spec(*k));
}

fn fold_eq(c: char, l: char) -> (r: bool)
    requires
        'a' as u32 <= l as u32 <= 'z' as u32,
    ensures
        r == folds_to(c, l),
{
    let u = c as u32;
    c == l || (u + 32 == l as u32 && 65 <= u && u <= 90)
}

impl ContestKind {
    /// Reads a contest name such as `abc390` or ` ARC195 `.
    pub fn parse(contest_name: &str) -> (r: Option<ContestKind>)
        ensures
            r == parse_spec(contest_name@),
    {
        let (lo, hi) = trim_bounds(contest_name);
        let ghost t = contest_name@.subrange(lo as int, hi as int);
        if hi - lo < 4 {
            return None;
        }
        let c0 = contest_name.get_char(lo);
        let c1 = contest_name.get_char(lo + 1);
        let c2 = contest_name.get_char(lo + 2);
        assert(t[0] == c0 && t[1] == c1 && t[2] == c2);
        if !fold_eq(c0, 'a') || !fold_eq(c2, 'c') {
            return None;
        }
        assert(t.subrange(3, t.len() as int) =~= contest_name@.subrange(lo + 3, hi as int));
        match parse_usize(contest_name, lo + 3, hi) {
            None => None,
            Some(n) => {
                if fold_eq(c1, 'b') {
                    Some(ContestKind::ABC(n))
                } else if fold_eq(c1, 'r') {
                    Some(ContestKind::ARC(n))
                } else if fold_eq(c1, 'g') {
                    Some(ContestKind::AGC(n))
                } else {
                    None
                }
            },
        }
    }

    /// The labels of the contest's problems, in order.
    pub fn problem_list(&self) -> (r: Vec<String>)
        ensures
            r@.len() == problem_list_spec(*self).len(),
            forall|i: int| 0 <= i < r@.len() ==> #[trigger] r@[i]@ == problem_list_spec(*self)[i],
    {
        match self {
            ContestKind::ABC(n) => {
                let r = letter_strings('a', if *n <= 125 { 4 } else { 6 });
                assert forall|i: int| 0 <= i < r@.len() implies #[trigger] r@[i]@
                    == problem_list_spec(*self)[i] by {
                    assert(r@[i]@ == seq![(('a' as u32) + i) as char]);
                }
                r
            },
            ContestKind::ARC(n) => {
                let first = if 57 < *n && *n <= 103 { 'c' } else { 'a' };
                let r = letter_strings(first, 4);
                assert forall|i: int| 0 <= i < r@.len() implies #[trigger] r@[i]@
                    == problem_list_spec(*self)[i] by {
                    assert(r@[i]@ == seq![((first as u32) + i) as char]);
                }
                r
            },
            ContestKind::AGC(n) => {
                let mut r: Vec<String> = Vec::new();
                let mut i: usize = 0;
                while i < *n
                    invariant
                        i <= *n,
                        problem_list_spec(*self) == Seq::new(
                            *n as nat,
                            |j: int| seq!['A', 'G', 'C'] + decimal(j as nat),
                        ),
                        r@.len() == i,
                        forall|j: int|
                            0 <= j < i ==> #[trigger] r@[j]@ == problem_list_spec(*self)[j],
                    decreases *n - i,
                {
                    let mut s = String::new();
                    push_char(&mut s, 'A');
                    push_char(&mut s, 'G');
                    push_char(&mut s, 'C');
                    push_decimal(&mut s, i);
                    assert(s@ =~= seq!['A', 'G', 'C'] + decimal(i as nat));
                    r.push(s);
                    i = i + 1;
                }
                r
            },
        }
    }

    /// The address of the page of problem `label`.
    pub fn problem_url(&self, label: &str) -> (r: String)
        ensures
            r@ == url_spec(*self, label@),
    {
        let n = match self {
            ContestKind::ABC(n) => *n,
            ContestKind::ARC(n) => *n,
            ContestKind::AGC(n) => *n,
        };
        let mut s = String::from_str("https://atcoder.jp/contests/");
        series_code(&mut s, self);
        push_padded3(&mut s, n);
        s.append("/tasks/");
        series_code(&mut s, self);
        push_padded3(&mut s, n);
        push_char(&mut s, '_');
        s.append(label);
        assert(s@ =~= url_spec(*self, label@));
        s
    }

    /// The addresses of all problem pages of the contest, in problem order.
    pub fn problem_urls(&self) -> (r: Vec<String>)
        ensures
            r@.len() == problem_list_spec(*self).len(),
            forall|i: int|
                0 <= i < r@.len() ==> #[trigger] r@[i]@ == url_spec(
                    *self,
                    problem_list_spec(*self)[i],
                ),
    {
        let labels = self.problem_list();
        let mut r: Vec<String> = Vec::new();
        let mut i: usize = 0;
        while i < labels.len()
            invariant
                i <= labels@.len(),
                labels@.len() == problem_list_spec(*self).len(),
                forall|j: int|
                    0 <= j < labels@.len() ==> #[trigger] labels@[j]@ == problem_list_spec(
                        *self,
                    )[j],
                r@.len() == i,
                forall|j: int|
                    0 <= j < i ==> #[trigger] r@[j]@ == url_spec(*self, problem_list_spec(*self)[j]),
            decreases labels@.len() - i,
        {
            let u = self.problem_url(labels[i].as_str());
            r.push(u);
            i = i + 1;
        }
        r
    }

    /// Assembles the contest's samples from its problem pages: `pages[i]` is
    /// the HTML text of the page of the `i`-th problem.
    pub fn get_contest_info(&self, pages: &Vec<String>) -> (r: Contest)
        requires
            pages@.len() == problem_list_spec(*self).len(),
        ensures
            r.kind == *self,
            r.problem@.len() == problem_list_spec(*self).len(),
            forall|i: int|
                0 <= i < r.problem@.len() ==> (#[trigger] r.problem@[i]).diff@
                    == problem_list_spec(*self)[i] && pairs_view(
                    r.problem@[i].expected_in_out@,
                    sample_pairs(page_parts_of(pages@[i]@)),
                ),
    {
        let labels = self.problem_list();
        let mut problems: Vec<Problem> = Vec::new();
        let mut i: usize = 0;
        while i < labels.len()
            invariant
                i <= labels@.len(),
                labels@.len() == problem_list_spec(*self).len(),
                pages@.len() == labels@.len(),
                forall|j: int|
                    0 <= j < labels@.len() ==> #[trigger] labels@[j]@ == problem_list_spec(
                        *self,
                    )[j],
                problems@.len() == i,
                forall|j: int|
                    0 <= j < i ==> (#[trigger] problems@[j]).diff@ == problem_list_spec(*self)[j]
                        && pairs_view(
                        problems@[j].expected_in_out@,
                        sample_pairs(page_parts_of(pages@[j]@)),
                    ),
            decreases labels@.len() - i,
        {
            let io = extract_from_markup(pages[i].as_str());
            problems.push(Problem { diff: labels[i].clone(), expected_in_out: io });
            i = i + 1;
        }
        Contest { kind: *self, problem: problems }
    }
}

} // verus!

use vstd::prelude::*;

use crate::text::{contains_text, has_sub, last_token, last_token_bounds, parse_usize, usize_of};

verus! {

/// One "part" of a problem page: the text of its heading and of its
/// preformatted block, where the page has them.
pub struct PagePart {
    pub heading: Option<String>,
    pub block: Option<String>,
}

/// What a part holds: the heading text and the block text, where present.
pub type PartView = (Option<Seq<char>>, Option<Seq<char>>);

pub open spec fn text_view(o: Option<String>) -> Option<Seq<char>> {
    match o {
        Some(s) => Some(s@),
        None => None,
    }
}

impl View for PagePart {
    type V = PartView;

    open spec fn view(&self) -> PartView {
        (text_view(self.heading), text_view(self.block))
    }
}

/// The views of a sequence of parts.
pub open spec fn parts_view(parts: Seq<PagePart>) -> Seq<PartView> {
    parts.map_values(|p: PagePart| p@)
}

/// A heading that names a sample input ("Sample Input 2", "入力例 2").
pub open spec fn is_input_heading(t: Seq<char>) -> bool {
    has_sub(t, "入力例"@) || has_sub(t, "Input"@)
}

/// A heading that names a sample output ("Sample Output 2", "出力例 2").
pub open spec fn is_output_heading(t: Seq<char>) -> bool {
    has_sub(t, "出力例"@) || has_sub(t, "Output"@)
}

pub open spec fn input_number_spec(t: Seq<char>) -> Option<usize> {
    if is_input_heading(t) {
        usize_of(last_token(t))
    } else {
        None
    }
}

pub open spec fn output_number_spec(t: Seq<char>) -> Option<usize> {
    if is_output_heading(t) {
        usize_of(last_token(t))
    } else {
        None
    }
}

/// The sample inputs found in `parts`, by sample number; a later part with
/// the same number replaces an earlier one.
pub open spec fn input_map(parts: Seq<PartView>) -> Map<int, Seq<char>>
    decreases parts.len(),
{
    if parts.len() == 0 {
        Map::empty()
    } else {
        let m = input_map(parts.drop_last());
        let p = parts.last();
        match (p.0, p.1) {
            (Some(h), Some(b)) => match input_number_spec(h) {
                Some(n) => m.insert(n as int, b),
                None => m,
            },
            _ => m,
        }
    }
}

/// The sample outputs found in `parts`, by sample number.
pub open spec fn output_map(parts: Seq<PartView>) -> Map<int, Seq<char>>
    decreases parts.len(),
{
    if parts.len() == 0 {
        Map::empty()
    } else {
        let m = output_map(parts.drop_last());
        let p = parts.last();
        match (p.0, p.1) {
            (Some(h), Some(b)) => match (input_number_spec(h), output_number_spec(h)) {
                (None, Some(n)) => m.insert(n as int, b),
                _ => m,
            },
            _ => m,
        }
    }
}

/// The (input, output) pairs for the sample numbers below `n` that have both,
/// in ascending order of number.
pub open spec fn pairs_below(
    ins: Map<int, Seq<char>>,
    outs: Map<int, Seq<char>>,
    n: nat,
) -> Seq<(Seq<char>, Seq<char>)>
    decreases n,
{
    if n == 0 {
        Seq::empty()
    } else {
        let k = n - 1;
        let prev = pairs_below(ins, outs, (n - 1) as nat);
        if ins.contains_key(k) && outs.contains_key(k) {
            prev.push((ins[k], outs[k]))
        } else {
            prev
        }
    }
}

/// The sample pairs of a page made of `parts`.
pub open spec fn sample_pairs(parts: Seq<PartView>) -> Seq<(Seq<char>, Seq<char>)> {
    pairs_below(input_map(parts), output_map(parts), usize::MAX as nat + 1)
}

/// `r` holds exactly the pairs `s`.
pub open spec fn pairs_view(r: Seq<(String, String)>, s: Seq<(Seq<char>, Seq<char>)>) -> bool {
    &&& r.len() == s.len()
    &&& forall|i: int| 0 <= i < r.len() ==> (#[trigger] r[i]).0@ == s[i].0 && r[i].1@ == s[i].1
}

/// The sample number of an input heading.
pub fn get_input_number(text: &str) -> (r: Option<usize>)
    ensures
        r == input_number_spec(text@),
{
    if contains_text(text, "入力例") || contains_text(text, "Input") {
        let (lo, hi) = last_token_bounds(text);
        parse_usize(text, lo, hi)
    } else {
        None
    }
}

/// The sample number of an output heading.
pub fn get_output_number(text: &str) -> (r: Option<usize>)
    ensures
        r == output_number_spec(text@),
{
    if contains_text(text, "出力例") || contains_text(text, "Output") {
        let (lo, hi) = last_token_bounds(text);
        parse_usize(text, lo, hi)
    } else {
        None
    }
}

/// Texts kept by sample number, in strictly ascending order of number, and
/// holding exactly the entries of `m`.
pub open spec fn slots_hold(v: Seq<(usize, String)>, m: Map<int, Seq<char>>) -> bool {
    &&& forall|i: int, j: int| 0 <= i < j < v.len() ==> (#[trigger] v[i]).0 < (#[trigger] v[j]).0
    &&& forall|i: int|
        0 <= i < v.len() ==> m.contains_key((#[trigger] v[i]).0 as int) && m[v[i].0 as int]
            == v[i].1@
    &&& forall|k: int| #[trigger] m.contains_key(k) ==> exists|i: int| 0 <= i < v.len() && v[i].0 == k
}

/// Stores `text` under number `n`, replacing what was there.
fn record(slots: &mut Vec<(usize, String)>, n: usize, text: String, Ghost(m): Ghost<
    Map<int, Seq<char>>,
>)
    requires
        slots_hold(old(slots)@, m),
    ensures
        slots_hold(final(slots)@, m.insert(n as int, text@)),
{
    let mut p: usize = 0;
    while p < slots.len() && slots[p].0 < n
        invariant
            p <= slots@.len(),
            slots_hold(slots@, m),
            forall|i: int| 0 <= i < p ==> (#[trigger] slots@[i]).0 < n,
        decreases slots@.len() - p,
    {
        p = p + 1;
    }
    let ghost v = slots@;
    let ghost m2 = m.insert(n as int, text@);
    if p < slots.len() && slots[p].0 == n {
        slots[p] = (n, text);
        let ghost w = slots@;
        assert forall|i: int, j: int| 0 <= i < j < w.len() implies (#[trigger] w[i]).0
            < (#[trigger] w[j]).0 by {
            assert(v[i].0 < v[j].0);
        }
        assert forall|i: int| 0 <= i < w.len() implies m2.contains_key((#[trigger] w[i]).0 as int)
            && m2[w[i].0 as int] == w[i].1@ by {
            if i != p {
                assert(v[i].0 != n) by {
                    if i < p {
                    } else {
                        assert(v[p as int].0 < v[i].0);
                    }
                }
            }
        }
        assert forall|k: int| #[trigger] m2.contains_key(k) implies exists|i: int|
            0 <= i < w.len() && w[i].0 == k by {
            if k != n {
                let i = choose|i: int| 0 <= i < v.len() && v[i].0 == k;
                assert(w[i].0 == k);
            } else {
                assert(w[p as int].0 == k);
            }
        }
    } else {
        slots.insert(p, (n, text));
        let ghost w = slots@;
        assert forall|i: int| 0 <= i < w.len() implies m2.contains_key((#[trigger] w[i]).0 as int)
            && m2[w[i].0 as int] == w[i].1@ by {
            if i < p {
                assert(w[i] == v[i]);
            } else if i > p {
                assert(w[i] == v[i - 1]);
                assert(v[i - 1].0 > n) by {
                    if i - 1 > p {
                        assert(v[p as int].0 < v[i - 1].0);
                    }
                }
            }
        }
        assert forall|i: int, j: int| 0 <= i < j < w.len() implies (#[trigger] w[i]).0
            < (#[trigger] w[j]).0 by {
            if j < p {
                assert(w[i] == v[i] && w[j] == v[j]);
            } else if j == p {
                assert(w[i] == v[i]);
            } else if i < p {
                assert(w[i] == v[i] && w[j] == v[j - 1]);
                assert(v[p as int].0 > n);
                if j - 1 > p {
                    assert(v[p as int].0 < v[j - 1].0);
                }
            } else if i == p {
                assert(w[j] == v[j - 1]);
                assert(v[p as int].0 > n);
                if j - 1 > p {
                    assert(v[p as int].0 < v[j - 1].0);
                }
            } else {
                assert(w[i] == v[i - 1] && w[j] == v[j - 1]);
            }
        }
        assert forall|k: int| #[trigger] m2.contains_key(k) implies exists|i: int|
            0 <= i < w.len() && w[i].0 == k by {
            if k != n {
                let i = choose|i: int| 0 <= i < v.len() && v[i].0 == k;
                if i < p {
                    assert(w[i].0 == k);
                } else {
                    assert(w[i + 1].0 == k);
                }
            } else {
                assert(w[p as int].0 == k);
            }
        }
    }
}

/// Position of number `n` among `slots`.
fn find_slot(slots: &Vec<(usize, String)>, n: usize) -> (r: Option<usize>)
    ensures
        match r {
            Some(i) => i < slots@.len() && slots@[i as int].0 == n,
            None => forall|i: int| 0 <= i < slots@.len() ==> (#[trigger] slots@[i]).0 != n,
        },
{
    let mut i: usize = 0;
    while i < slots.len()
        invariant
            i <= slots@.len(),
            forall|j: int| 0 <= j < i ==> (#[trigger] slots@[j]).0 != n,
        decreases slots@.len() - i,
    {
        if slots[i].0 == n {
            return Some(i);
        }
        i = i + 1;
    }
    None
}

proof fn lemma_gap(ins: Map<int, Seq<char>>, outs: Map<int, Seq<char>>, a: nat, b: nat)
    requires
        a <= b,
        forall|k: int| a <= k < b ==> !#[trigger] ins.contains_key(k),
    ensures
        pairs_below(ins, outs, b) == pairs_below(ins, outs, a),
    decreases b,
{
    if a < b {
        lemma_gap(ins, outs, a, (b - 1) as nat);
        assert(!ins.contains_key(b - 1));
    }
}

/// Pairs up the sample texts found in `parts`: for each sample number, in
/// ascending order, the input and output texts, where both were found.
pub fn pair_samples(parts: &Vec<PagePart>) -> (r: Vec<(String, String)>)
    ensures
        pairs_view(r@, sample_pairs(parts_view(parts@))),
{
    let ghost pv = parts_view(parts@);
    let mut inputs: Vec<(usize, String)> = Vec::new();
    let mut outputs: Vec<(usize, String)> = Vec::new();
    let mut i: usize = 0;
    while i < parts.len()
        invariant
            i <= parts@.len(),
            pv == parts_view(parts@),
            slots_hold(inputs@, input_map(pv.subrange(0, i as int))),
            slots_hold(outputs@, output_map(pv.subrange(0, i as int))),
        decreases parts@.len() - i,
    {
        let ghost before = pv.subrange(0, i as int);
        let ghost after = pv.subrange(0, i + 1);
        assert(after.drop_last() =~= before);
        assert(after.last() == parts@[i as int]@);
        let part = &parts[i];
        match (&part.heading, &part.block) {
            (Some(h), Some(b)) => {
                match get_input_number(h.as_str()) {
                    Some(n) => {
                        record(&mut inputs, n, b.clone(), Ghost(input_map(before)));
                    },
                    None => match get_output_number(h.as_str()) {
                        Some(n) => {
                            record(&mut outputs, n, b.clone(), Ghost(output_map(before)));
                        },
                        None => {},
                    },
                }
            },
            _ => {},
        }
        i = i + 1;
    }
    assert(pv.subrange(0, parts@.len() as int) =~= pv);
    let ghost ins = input_map(pv);
    let ghost outs = output_map(pv);
    let mut r: Vec<(String, String)> = Vec::new();
    let mut j: usize = 0;
    while j < inputs.len()
        invariant
            j <= inputs@.len(),
            slots_hold(inputs@, ins),
            slots_hold(outputs@, outs),
            pairs_view(
                r@,
                pairs_below(
                    ins,
                    outs,
                    if j == 0 {
                        0
                    } else {
                        (inputs@[j - 1].0 + 1) as nat
                    },
                ),
            ),
        decreases inputs@.len() - j,
    {
        let n = inputs[j].0;
        let ghost lo: nat = if j == 0 {
            0
        } else {
            (inputs@[j - 1].0 + 1) as nat
        };
        proof {
            assert forall|k: int| lo <= k < n implies !#[trigger] ins.contains_key(k) by {
                if ins.contains_key(k) {
                    let q = choose|q: int| 0 <= q < inputs@.len() && inputs@[q].0 == k;
                    if q < j {
                        if q < j - 1 {
                            assert(inputs@[q].0 < inputs@[j - 1].0);
                        }
                    } else if q > j {
                        assert(inputs@[j as int].0 < inputs@[q].0);
                    }
                }
            }
            lemma_gap(ins, outs, lo, n as nat);
        }
        let ghost prev = r@;
        match find_slot(&outputs, n) {
            Some(o) => {
                r.push((inputs[j].1.clone(), outputs[o].1.clone()));
                proof {
                    assert(pairs_below(ins, outs, n as nat + 1) == pairs_below(
                        ins,
                        outs,
                        n as nat,
                    ).push((ins[n as int], outs[n as int])));
                    assert(r@[r@.len() - 1] == (inputs@[j as int].1, outputs@[o as int].1));
                }
            },
            None => {
                proof {
                    assert(!outs.contains_key(n as int)) by {
                        if outs.contains_key(n as int) {
                            let q = choose|q: int| 0 <= q < outputs@.len() && outputs@[q].0 == n;
                            assert(outputs@[q].0 != n);
                        }
                    }
                    assert(pairs_below(ins, outs, n as nat + 1) == pairs_below(
                        ins,
                        outs,
                        n as nat,
                    ));
                }
            },
        }
        j = j + 1;
    }
    proof {
        let lo: nat = if j == 0 {
            0
        } else {
            (inputs@[j - 1].0 + 1) as nat
        };
        assert forall|k: int| lo <= k < usize::MAX as nat + 1 implies !#[trigger] ins.contains_key(
            k,
        ) by {
            if ins.contains_key(k) {
                let q = choose|q: int| 0 <= q < inputs@.len() && inputs@[q].0 == k;
                if q < j - 1 {
                    assert(inputs@[q].0 < inputs@[j - 1].0);
                }
            }
        }
        lemma_gap(ins, outs, lo, usize::MAX as nat + 1);
    }
    r
}

} // verus!

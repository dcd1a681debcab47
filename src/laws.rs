use vstd::prelude::*;

use crate::contest::{code_spec, folds_to, number_spec, parse_spec, problem_list_spec, ContestKind};
use crate::samples::{
    input_map, input_number_spec, output_map, output_number_spec, pairs_below, sample_pairs,
    PartView,
};
use crate::text::{
    all_digits, digits_value, is_space, trim_end, trim_start, trimmed, unsigned_digits, usize_of,
};

verus! {

proof fn lemma_trim_start_skips(pre: Seq<char>, x: Seq<char>)
    requires
        forall|i: int| 0 <= i < pre.len() ==> is_space(#[trigger] pre[i]),
        x.len() > 0,
        !is_space(x[0]),
    ensures
        trim_start(pre + x) == x,
    decreases pre.len(),
{
    if pre.len() == 0 {
        assert(pre + x =~= x);
    } else {
        assert((pre + x).drop_first() =~= pre.drop_first() + x);
        assert(is_space(pre[0]));
        lemma_trim_start_skips(pre.drop_first(), x);
    }
}

proof fn lemma_trim_end_skips(x: Seq<char>, post: Seq<char>)
    requires
        forall|i: int| 0 <= i < post.len() ==> is_space(#[trigger] post[i]),
        x.len() > 0,
        !is_space(x.last()),
    ensures
        trim_end(x + post) == x,
    decreases post.len(),
{
    if post.len() == 0 {
        assert(x + post =~= x);
    } else {
        assert((x + post).drop_last() =~= x + post.drop_last());
        assert(is_space(post.last()));
        lemma_trim_end_skips(x, post.drop_last());
    }
}

/// A contest name made of optional whitespace, a series code in any letter
/// case, the decimal digits of the contest number, and optional whitespace,
/// reads back as exactly that series and number.
pub proof fn law_parse_round_trip(
    pre: Seq<char>,
    code: Seq<char>,
    digits: Seq<char>,
    post: Seq<char>,
    k: ContestKind,
)
    requires
        forall|i: int| 0 <= i < pre.len() ==> is_space(#[trigger] pre[i]),
        forall|i: int| 0 <= i < post.len() ==> is_space(#[trigger] post[i]),
        code.len() == 3,
        forall|i: int| 0 <= i < 3 ==> folds_to(#[trigger] code[i], code_spec(k)[i]),
        digits.len() > 0,
        all_digits(digits),
        digits_value(digits) == number_spec(k),
    ensures
        parse_spec(pre + code + digits + post) == Some(k),
{
    let x = code + digits;
    assert(folds_to(code[0], code_spec(k)[0]));
    assert(folds_to(code[1], code_spec(k)[1]));
    assert(folds_to(code[2], code_spec(k)[2]));
    assert(x[0] == code[0]);
    assert(x.last() == digits.last());
    assert(all_digits(digits) ==> crate::text::is_digit(digits[digits.len() - 1]));
    assert(pre + code + digits + post =~= pre + (x + post));
    lemma_trim_end_skips(x, post);
    assert((x + post)[0] == x[0]);
    lemma_trim_start_skips(pre, x + post);
    assert(trimmed(pre + code + digits + post) == x);
    assert(x.subrange(3, x.len() as int) =~= digits);
    assert(unsigned_digits(digits) == digits);
    assert(usize_of(digits) == Some(number_spec(k)));
    assert(x[1] == code[1] && x[2] == code[2]);
}

/// A contest name is refused when, once trimmed, it is shorter than four
/// characters, does not start with a known series code, or is not followed
/// by a decimal number that fits a `usize`.
pub proof fn law_parse_rejects(s: Seq<char>)
    ensures
        trimmed(s).len() < 4 ==> parse_spec(s).is_none(),
        trimmed(s).len() >= 4 && !(folds_to(trimmed(s)[0], 'a') && folds_to(trimmed(s)[2], 'c')
            && (folds_to(trimmed(s)[1], 'b') || folds_to(trimmed(s)[1], 'r') || folds_to(
            trimmed(s)[1],
            'g',
        ))) ==> parse_spec(s).is_none(),
        trimmed(s).len() >= 4 && usize_of(trimmed(s).subrange(3, trimmed(s).len() as int)).is_none()
            ==> parse_spec(s).is_none(),
{
}

/// The problem labels depend on the contest alone: equal contests give equal
/// label sequences, in the same order.
pub proof fn law_problem_list_pure(a: ContestKind, b: ContestKind)
    requires
        a == b,
    ensures
        problem_list_spec(a) == problem_list_spec(b),
        problem_list_spec(a).len() == problem_list_spec(b).len(),
        forall|i: int|
            0 <= i < problem_list_spec(a).len() ==> #[trigger] problem_list_spec(a)[i]
                == problem_list_spec(b)[i],
{
}

/// `a` and `b` hold the same entries at every key but `n` (at every key
/// when `n` is `None`).
pub open spec fn agree_except(a: Map<int, Seq<char>>, b: Map<int, Seq<char>>, n: Option<int>) -> bool {
    forall|k: int|
        Some(k) != n ==> (#[trigger] a.contains_key(k) == b.contains_key(k)) && (a.contains_key(k)
            ==> a[k] == b[k])
}

/// Both pairs of maps give a pair at the same keys, with the same texts.
pub open spec fn same_pairs(
    ins1: Map<int, Seq<char>>,
    outs1: Map<int, Seq<char>>,
    ins2: Map<int, Seq<char>>,
    outs2: Map<int, Seq<char>>,
) -> bool {
    forall|k: int|
        #![trigger ins1.contains_key(k)]
        #![trigger ins2.contains_key(k)]
        ((ins1.contains_key(k) && outs1.contains_key(k)) <==> (ins2.contains_key(k)
            && outs2.contains_key(k))) && (ins1.contains_key(k) && outs1.contains_key(k) ==> ins1[k]
            == ins2[k] && outs1[k] == outs2[k])
}

/// The key under which part `p` enters the input map, if any.
pub open spec fn input_key(p: PartView) -> Option<int> {
    match (p.0, p.1) {
        (Some(h), Some(_)) => match input_number_spec(h) {
            Some(n) => Some(n as int),
            None => None,
        },
        _ => None,
    }
}

/// The key under which part `p` enters the output map, if any.
pub open spec fn output_key(p: PartView) -> Option<int> {
    match (p.0, p.1) {
        (Some(h), Some(_)) => match (input_number_spec(h), output_number_spec(h)) {
            (None, Some(n)) => Some(n as int),
            _ => None,
        },
        _ => None,
    }
}

proof fn lemma_insert_part(parts: Seq<PartView>, j: int, p: PartView)
    requires
        0 <= j <= parts.len(),
    ensures
        agree_except(input_map(parts.insert(j, p)), input_map(parts), input_key(p)),
        agree_except(output_map(parts.insert(j, p)), output_map(parts), output_key(p)),
    decreases parts.len(),
{
    let q = parts.insert(j, p);
    if j == parts.len() {
        assert(q.drop_last() =~= parts);
        assert(q.last() == p);
    } else {
        lemma_insert_part(parts.drop_last(), j, p);
        assert(q.drop_last() =~= parts.drop_last().insert(j, p));
        assert(q.last() == parts.last());
    }
}

proof fn lemma_pairs_agree(
    ins1: Map<int, Seq<char>>,
    outs1: Map<int, Seq<char>>,
    ins2: Map<int, Seq<char>>,
    outs2: Map<int, Seq<char>>,
    n: nat,
)
    requires
        same_pairs(ins1, outs1, ins2, outs2),
    ensures
        pairs_below(ins1, outs1, n) == pairs_below(ins2, outs2, n),
    decreases n,
{
    if n > 0 {
        lemma_pairs_agree(ins1, outs1, ins2, outs2, (n - 1) as nat);
    }
}

/// A part whose heading names neither a sample input nor a sample output
/// (a statement, the constraints, notes), put anywhere among the parts,
/// leaves the pairs unchanged.
pub proof fn law_other_part_ignored(parts: Seq<PartView>, j: int, p: PartView)
    requires
        0 <= j <= parts.len(),
        forall|h: Seq<char>|
            p.0 == Some(h) ==> input_number_spec(h).is_none() && output_number_spec(h).is_none(),
    ensures
        sample_pairs(parts.insert(j, p)) == sample_pairs(parts),
{
    let q = parts.insert(j, p);
    lemma_insert_part(parts, j, p);
    assert(input_map(q) =~= input_map(parts));
    assert(output_map(q) =~= output_map(parts));
}

/// An input part, put anywhere among the parts, whose number has no output
/// part on the page adds no pair.
pub proof fn law_orphan_input_dropped(parts: Seq<PartView>, j: int, p: PartView, n: usize)
    requires
        0 <= j <= parts.len(),
        p.0 is Some,
        input_number_spec(p.0.unwrap()) == Some(n),
        !output_map(parts).contains_key(n as int),
    ensures
        sample_pairs(parts.insert(j, p)) == sample_pairs(parts),
{
    let q = parts.insert(j, p);
    lemma_insert_part(parts, j, p);
    assert(output_key(p) is None);
    assert(output_map(q) =~= output_map(parts));
    assert(same_pairs(input_map(q), output_map(q), input_map(parts), output_map(parts)));
    lemma_pairs_agree(
        input_map(q),
        output_map(q),
        input_map(parts),
        output_map(parts),
        usize::MAX as nat + 1,
    );
}

/// An output part, put anywhere among the parts, whose number has no input
/// part on the page adds no pair.
pub proof fn law_orphan_output_dropped(parts: Seq<PartView>, j: int, p: PartView, n: usize)
    requires
        0 <= j <= parts.len(),
        p.0 is Some,
        input_number_spec(p.0.unwrap()).is_none(),
        output_number_spec(p.0.unwrap()) == Some(n),
        !input_map(parts).contains_key(n as int),
    ensures
        sample_pairs(parts.insert(j, p)) == sample_pairs(parts),
{
    let q = parts.insert(j, p);
    lemma_insert_part(parts, j, p);
    assert(input_key(p) is None);
    assert(input_map(q) =~= input_map(parts));
    assert(same_pairs(input_map(q), output_map(q), input_map(parts), output_map(parts)));
    lemma_pairs_agree(
        input_map(q),
        output_map(q),
        input_map(parts),
        output_map(parts),
        usize::MAX as nat + 1,
    );
}

} // verus!

//! The key orders by which mapping entries are arranged.
use vstd::prelude::*;
use crate::text::{lex_lt, lemma_lex_irreflexive, lemma_lex_transitive, lemma_lex_total, chars_of, lex_less};

verus! {

/// How the keys of a mapping are to be ordered.
pub enum KeyOrder {
    /// Alphabetical order.
    Alphabetical,
    /// The order of a step's `with` inputs: `entrypoint` first, then `args`,
    /// then every other key alphabetically.
    StepInputs,
    /// The listed keys first, in the order of the list, then every other key
    /// alphabetically.
    Listed(Vec<String>),
}

/// Abstract value of a [`KeyOrder`].
pub enum KeyOrderView {
    Alphabetical,
    StepInputs,
    Listed(Seq<Seq<char>>),
}

impl View for KeyOrder {
    type V = KeyOrderView;

    open spec fn view(&self) -> KeyOrderView {
        match self {
            KeyOrder::Alphabetical => KeyOrderView::Alphabetical,
            KeyOrder::StepInputs => KeyOrderView::StepInputs,
            KeyOrder::Listed(v) => KeyOrderView::Listed(v@.map_values(|s: String| s@)),
        }
    }
}

/// Position of the first occurrence of `k` in `list`, or the length of `list`
/// when `k` does not occur in it.
pub open spec fn list_rank(list: Seq<Seq<char>>, k: Seq<char>) -> nat
    decreases list.len(),
{
    if list.len() == 0 {
        0
    } else if list[0] == k {
        0
    } else {
        1 + list_rank(list.drop_first(), k)
    }
}

/// Rank of a key among a step's `with` inputs.
pub open spec fn step_input_rank(k: Seq<char>) -> nat {
    if k == "entrypoint"@ {
        0
    } else if k == "args"@ {
        1
    } else {
        2
    }
}

/// Keys of lower rank come first; keys that share the top rank `last` are
/// ordered alphabetically.
pub open spec fn ranked_lt(ra: nat, rb: nat, last: nat, a: Seq<char>, b: Seq<char>) -> bool {
    ra < rb || (ra == rb && ra == last && lex_lt(a, b))
}

/// Whether key `a` comes strictly before key `b` under order `o`.
pub open spec fn key_lt(o: KeyOrderView, a: Seq<char>, b: Seq<char>) -> bool {
    match o {
        KeyOrderView::Alphabetical => lex_lt(a, b),
        KeyOrderView::StepInputs => ranked_lt(step_input_rank(a), step_input_rank(b), 2, a, b),
        KeyOrderView::Listed(l) => ranked_lt(list_rank(l, a), list_rank(l, b), l.len(), a, b),
    }
}

/// A key listed at rank `r` below the length of the list is the list's entry there.
pub proof fn lemma_list_rank(list: Seq<Seq<char>>, k: Seq<char>)
    ensures
        list_rank(list, k) <= list.len(),
        list_rank(list, k) < list.len() ==> list[list_rank(list, k) as int] == k,
        list_rank(list, k) == list.len() ==> !list.contains(k),
    decreases list.len(),
{
    if list.len() > 0 && list[0] != k {
        lemma_list_rank(list.drop_first(), k);
        if list.contains(k) {
            let i = choose|i: int| 0 <= i < list.len() && list[i] == k;
            assert(list.drop_first()[i - 1] == k);
        }
    }
}

/// Every key order is a strict total order on keys: irreflexive, transitive,
/// and relating any two distinct keys.
pub proof fn lemma_key_order_strict_total(o: KeyOrderView, a: Seq<char>, b: Seq<char>, c: Seq<char>)
    ensures
        !key_lt(o, a, a),
        key_lt(o, a, b) && key_lt(o, b, c) ==> key_lt(o, a, c),
        a != b ==> key_lt(o, a, b) || key_lt(o, b, a),
        key_lt(o, a, b) ==> !key_lt(o, b, a),
{
    lemma_lex_irreflexive(a);
    if lex_lt(a, b) && lex_lt(b, c) {
        lemma_lex_transitive(a, b, c);
    }
    if lex_lt(a, b) && lex_lt(b, a) {
        lemma_lex_transitive(a, b, a);
    }
    if a != b {
        lemma_lex_total(a, b);
    }
    match o {
        KeyOrderView::Listed(l) => {
            lemma_list_rank(l, a);
            lemma_list_rank(l, b);
        },
        _ => {},
    }
}

/// In a step's `with` inputs, `entrypoint` comes before every other key,
/// `args` before every key but `entrypoint`, and the remaining keys are in
/// alphabetical order.
pub proof fn law_step_inputs_order(a: Seq<char>, b: Seq<char>)
    ensures
        a == "entrypoint"@ && b != a ==> key_lt(KeyOrderView::StepInputs, a, b),
        a == "args"@ && b != a && b != "entrypoint"@ ==> key_lt(KeyOrderView::StepInputs, a, b),
        a != "entrypoint"@ && a != "args"@ && b != "entrypoint"@ && b != "args"@ ==> (key_lt(
            KeyOrderView::StepInputs,
            a,
            b,
        ) == lex_lt(a, b)),
{
}

/// Under a listed order, listed keys come before unlisted ones and in the
/// order of the list; unlisted keys are in alphabetical order.
pub proof fn law_listed_order(list: Seq<Seq<char>>, i: int, j: int, a: Seq<char>, b: Seq<char>)
    requires
        0 <= i < j < list.len(),
        forall|m: int, n: int| 0 <= m < n < list.len() ==> list[m] != list[n],
    ensures
        key_lt(KeyOrderView::Listed(list), list[i], list[j]),
        !list.contains(a) ==> key_lt(KeyOrderView::Listed(list), list[i], a),
        !list.contains(a) && !list.contains(b) ==> (key_lt(KeyOrderView::Listed(list), a, b)
            == lex_lt(a, b)),
{
    lemma_list_rank_of_member(list, i);
    lemma_list_rank_of_member(list, j);
    lemma_list_rank(list, a);
    lemma_list_rank(list, b);
    if !list.contains(a) && list_rank(list, a) < list.len() {
        assert(list.contains(list[list_rank(list, a) as int]));
    }
    if !list.contains(b) && list_rank(list, b) < list.len() {
        assert(list.contains(list[list_rank(list, b) as int]));
    }
}

/// In a list without repeats, the rank of the entry at position `i` is `i`.
pub proof fn lemma_list_rank_of_member(list: Seq<Seq<char>>, i: int)
    requires
        0 <= i < list.len(),
        forall|m: int, n: int| 0 <= m < n < list.len() ==> list[m] != list[n],
    ensures
        list_rank(list, list[i]) == i,
    decreases list.len(),
{
    if i > 0 {
        let d = list.drop_first();
        assert forall|m: int, n: int| 0 <= m < n < d.len() implies d[m] != d[n] by {
            assert(d[m] == list[m + 1] && d[n] == list[n + 1]);
        }
        assert(list[0] != list[i]);
        lemma_list_rank_of_member(d, i - 1);
        assert(d[i - 1] == list[i]);
    }
}

/// Rank of `k` in `list`.
fn list_rank_exec(list: &Vec<String>, k: &String) -> (r: usize)
    ensures
        r == list_rank(list@.map_values(|s: String| s@), k@),
{
    let ghost l = list@.map_values(|s: String| s@);
    let mut i: usize = 0;
    assert(l.skip(0) =~= l);
    while i < list.len()
        invariant
            i <= list@.len(),
            l == list@.map_values(|s: String| s@),
            list_rank(l, k@) == i + list_rank(l.skip(i as int), k@),
        decreases list.len() - i,
    {
        assert(l.skip(i as int)[0] == list@[i as int]@);
        if list[i] == *k {
            return i;
        }
        assert(l.skip(i as int).drop_first() =~= l.skip(i + 1));
        i = i + 1;
    }
    i
}

/// Whether key `a` comes strictly before key `b` under order `o`.
pub fn key_less(o: &KeyOrder, a: &String, b: &String) -> (r: bool)
    ensures
        r == key_lt(o@, a@, b@),
{
    let ca = chars_of(a.as_str());
    let cb = chars_of(b.as_str());
    match o {
        KeyOrder::Alphabetical => lex_less(&ca, &cb),
        KeyOrder::StepInputs => {
            let ra = step_input_rank_exec(a);
            let rb = step_input_rank_exec(b);
            ra < rb || (ra == rb && ra == 2 && lex_less(&ca, &cb))
        },
        KeyOrder::Listed(l) => {
            let ra = list_rank_exec(l, a);
            let rb = list_rank_exec(l, b);
            ra < rb || (ra == rb && ra == l.len() && lex_less(&ca, &cb))
        },
    }
}

/// The order that puts `keys` first, in the order given, then every other key
/// alphabetically.
pub fn listed_order(keys: &[&str]) -> (r: KeyOrder)
    ensures
        r@ == KeyOrderView::Listed(keys@.map_values(|s: &str| s@)),
{
    let mut v: Vec<String> = Vec::new();
    let mut i: usize = 0;
    while i < keys.len()
        invariant
            i <= keys@.len(),
            v@.len() == i,
            v@.map_values(|s: String| s@) == keys@.map_values(|s: &str| s@).take(i as int),
        decreases keys.len() - i,
    {
        let ghost old_v = v@;
        let k = keys[i].to_owned();
        assert(k@ == keys@[i as int]@);
        v.push(k);
        assert forall|j: int| 0 <= j < i implies #[trigger] v@[j]@ == keys@[j]@ by {
            assert(v@[j] == old_v[j]);
            assert(old_v.map_values(|s: String| s@)[j] == keys@.map_values(|s: &str| s@).take(i as int)[j]);
        }
        assert(v@.map_values(|s: String| s@) =~= keys@.map_values(|s: &str| s@).take(i + 1));
        i = i + 1;
    }
    assert(keys@.map_values(|s: &str| s@).take(i as int) =~= keys@.map_values(|s: &str| s@));
    KeyOrder::Listed(v)
}

/// Rank of `k` among a step's `with` inputs.
fn step_input_rank_exec(k: &String) -> (r: usize)
    ensures
        r == step_input_rank(k@),
{
    if *k == "entrypoint".to_owned() {
        0
    } else if *k == "args".to_owned() {
        1
    } else {
        2
    }
}

} // verus!

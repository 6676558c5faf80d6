//! Tab-completion candidates: the builtins and path executables that extend
//! the word being typed, in lexicographic order, and their longest common
//! prefix.
use vstd::prelude::*;

use crate::builtins::{all_builtins, builtin_list, builtin_names};
use crate::text::{chars_of, chars_view, same_chars, starts_with, string_of, strings_view};

verus! {

/// Lexicographic order on character sequences, by code point: a proper prefix
/// comes first.
pub open spec fn lex_lt(a: Seq<char>, b: Seq<char>) -> bool
    decreases a.len(),
{
    if a.len() == 0 {
        b.len() > 0
    } else if b.len() == 0 {
        false
    } else if a[0] != b[0] {
        a[0] < b[0]
    } else {
        lex_lt(a.drop_first(), b.drop_first())
    }
}

/// Strictly increasing: sorted, with no repeats.
pub open spec fn sorted_strict(s: Seq<Seq<char>>) -> bool {
    forall|i: int, j: int| 0 <= i < j < s.len() ==> lex_lt(#[trigger] s[i], #[trigger] s[j])
}

/// A word that completes `word`: a builtin name or a path executable that
/// starts with it.
pub open spec fn is_candidate(word: Seq<char>, names: Seq<Seq<char>>, c: Seq<char>) -> bool {
    &&& word.is_prefix_of(c)
    &&& builtin_names().contains(c) || names.contains(c)
}

/// `cs` lists the completions of `word`, each once, in lexicographic order.
pub open spec fn candidates_ok(cs: Seq<Seq<char>>, word: Seq<char>, names: Seq<Seq<char>>) -> bool {
    &&& sorted_strict(cs)
    &&& forall|c: Seq<char>| cs.contains(c) <==> is_candidate(word, names, c)
}

/// The completions of `word`, each once, in lexicographic order.
pub open spec fn candidates(word: Seq<char>, names: Seq<Seq<char>>) -> Seq<Seq<char>> {
    choose|cs: Seq<Seq<char>>| candidates_ok(cs, word, names)
}

/// `p` is a prefix of every sequence in `ms`.
pub open spec fn is_common_prefix(p: Seq<char>, ms: Seq<Seq<char>>) -> bool {
    forall|i: int| 0 <= i < ms.len() ==> p.is_prefix_of(#[trigger] ms[i])
}

/// `ms[i]` ends at position `n` or differs there from `ms[0]`.
pub open spec fn stops_at(ms: Seq<Seq<char>>, i: int, n: int) -> bool {
    ms[i].len() == n || ms[i][n] != ms[0][n]
}

/// `p` is the longest common prefix of `ms` (empty when `ms` is).
pub open spec fn is_lcp(p: Seq<char>, ms: Seq<Seq<char>>) -> bool {
    if ms.len() == 0 {
        p.len() == 0
    } else {
        &&& is_common_prefix(p, ms)
        &&& (p.len() == ms[0].len() || exists|i: int|
            0 <= i < ms.len() && #[trigger] stops_at(ms, i, p.len() as int))
    }
}

/// The longest common prefix of `ms`.
pub open spec fn lcp(ms: Seq<Seq<char>>) -> Seq<char> {
    choose|p: Seq<char>| is_lcp(p, ms)
}

proof fn lemma_lex_lt_irreflexive(a: Seq<char>)
    ensures
        !lex_lt(a, a),
    decreases a.len(),
{
    if a.len() > 0 {
        lemma_lex_lt_irreflexive(a.drop_first());
    }
}

proof fn lemma_lex_lt_transitive(a: Seq<char>, b: Seq<char>, c: Seq<char>)
    requires
        lex_lt(a, b),
        lex_lt(b, c),
    ensures
        lex_lt(a, c),
    decreases a.len(),
{
    if a.len() > 0 && b.len() > 0 && c.len() > 0 && a[0] == b[0] && b[0] == c[0] {
        lemma_lex_lt_transitive(a.drop_first(), b.drop_first(), c.drop_first());
    }
}

proof fn lemma_lex_lt_total(a: Seq<char>, b: Seq<char>)
    ensures
        lex_lt(a, b) || a == b || lex_lt(b, a),
    decreases a.len(),
{
    if a.len() > 0 && b.len() > 0 && a[0] == b[0] {
        lemma_lex_lt_total(a.drop_first(), b.drop_first());
        if a.drop_first() == b.drop_first() {
            assert(a == seq![a[0]] + a.drop_first());
            assert(b == seq![b[0]] + b.drop_first());
        }
    } else if a.len() == 0 && b.len() == 0 {
        assert(a == b);
    }
}

proof fn lemma_contains_push(s: Seq<Seq<char>>, x: Seq<char>, c: Seq<char>)
    ensures
        s.push(x).contains(c) <==> (s.contains(c) || c == x),
{
    let t = s.push(x);
    if t.contains(c) {
        let k = choose|k: int| 0 <= k < t.len() && t[k] == c;
        if k < s.len() {
            assert(s[k] == c);
        }
    }
    if s.contains(c) {
        let k = choose|k: int| 0 <= k < s.len() && s[k] == c;
        assert(t[k] == c);
    }
    if c == x {
        assert(t[s.len() as int] == c);
    }
}

/// Two strictly increasing lists that hold the same elements are equal.
proof fn lemma_sorted_unique(a: Seq<Seq<char>>, b: Seq<Seq<char>>)
    requires
        sorted_strict(a),
        sorted_strict(b),
        forall|c: Seq<char>| a.contains(c) <==> b.contains(c),
    ensures
        a == b,
    decreases a.len(),
{
    if a.len() == 0 {
        if b.len() > 0 {
            assert(b.contains(b[0]));
        }
        assert(a == b);
    } else {
        assert(a.contains(a[0]));
        assert(b.contains(b[0]));
        let k = choose|k: int| 0 <= k < b.len() && b[k] == a[0];
        let m = choose|m: int| 0 <= m < a.len() && a[m] == b[0];
        if k > 0 {
            assert(lex_lt(b[0], b[k]));
            if m > 0 {
                assert(lex_lt(a[0], a[m]));
                lemma_lex_lt_transitive(a[0], a[m], a[0]);
            }
            lemma_lex_lt_irreflexive(a[0]);
        }
        let ta = a.drop_first();
        let tb = b.drop_first();
        assert forall|c: Seq<char>| ta.contains(c) <==> tb.contains(c) by {
            if ta.contains(c) {
                let i = choose|i: int| 0 <= i < ta.len() && ta[i] == c;
                assert(a[i + 1] == c);
                assert(a.contains(c));
                let j = choose|j: int| 0 <= j < b.len() && b[j] == c;
                assert(lex_lt(a[0], a[i + 1]));
                if j == 0 {
                    lemma_lex_lt_irreflexive(c);
                }
                assert(tb[j - 1] == c);
            }
            if tb.contains(c) {
                let i = choose|i: int| 0 <= i < tb.len() && tb[i] == c;
                assert(b[i + 1] == c);
                assert(b.contains(c));
                let j = choose|j: int| 0 <= j < a.len() && a[j] == c;
                assert(lex_lt(b[0], b[i + 1]));
                if j == 0 {
                    lemma_lex_lt_irreflexive(c);
                }
                assert(ta[j - 1] == c);
            }
        }
        lemma_sorted_unique(ta, tb);
        assert(a == seq![a[0]] + ta);
        assert(b == seq![b[0]] + tb);
    }
}

/// The longest common prefix is unique.
proof fn lemma_lcp_unique(p: Seq<char>, q: Seq<char>, ms: Seq<Seq<char>>)
    requires
        is_lcp(p, ms),
        is_lcp(q, ms),
    ensures
        p == q,
{
    if ms.len() > 0 {
        assert(p.is_prefix_of(ms[0]));
        assert(q.is_prefix_of(ms[0]));
        if p.len() < q.len() {
            let n = p.len() as int;
            assert(p.len() != ms[0].len());
            let i = choose|i: int| 0 <= i < ms.len() && #[trigger] stops_at(ms, i, n);
            assert(q.is_prefix_of(ms[i]));
            assert(ms[i][n] == q[n] && ms[0][n] == q[n]);
        } else if q.len() < p.len() {
            let n = q.len() as int;
            assert(q.len() != ms[0].len());
            let i = choose|i: int| 0 <= i < ms.len() && #[trigger] stops_at(ms, i, n);
            assert(p.is_prefix_of(ms[i]));
            assert(ms[i][n] == p[n] && ms[0][n] == p[n]);
        }
        assert(p == ms[0].subrange(0, p.len() as int));
        assert(q == ms[0].subrange(0, q.len() as int));
    }
}

/// Whether `a` comes before `b` in lexicographic order.
pub fn lex_less(a: &Vec<char>, b: &Vec<char>) -> (r: bool)
    ensures
        r == lex_lt(a@, b@),
{
    let mut i: usize = 0;
    assert(a@.subrange(0, a@.len() as int) == a@);
    assert(b@.subrange(0, b@.len() as int) == b@);
    while i < a.len() && i < b.len()
        invariant
            i <= a@.len(),
            i <= b@.len(),
            lex_lt(a@, b@) == lex_lt(
                a@.subrange(i as int, a@.len() as int),
                b@.subrange(i as int, b@.len() as int),
            ),
        decreases a@.len() - i,
    {
        let ghost sa = a@.subrange(i as int, a@.len() as int);
        let ghost sb = b@.subrange(i as int, b@.len() as int);
        if a[i] != b[i] {
            assert(sa[0] == a@[i as int] && sb[0] == b@[i as int]);
            return a[i] < b[i];
        }
        assert(sa.drop_first() == a@.subrange(i + 1, a@.len() as int));
        assert(sb.drop_first() == b@.subrange(i + 1, b@.len() as int));
        i = i + 1;
    }
    i == a.len() && i < b.len()
}

/// Adds `x` to a strictly increasing list, unless it is already there.
fn insert_sorted(list: &mut Vec<Vec<char>>, x: Vec<char>)
    requires
        sorted_strict(chars_view(old(list)@)),
    ensures
        sorted_strict(chars_view(final(list)@)),
        forall|c: Seq<char>|
            #[trigger] chars_view(final(list)@).contains(c) <==> (chars_view(old(list)@).contains(c)
                || c == x@),
{
    let ghost old_v = chars_view(list@);
    let mut i: usize = 0;
    while i < list.len() && lex_less(&list[i], &x)
        invariant
            old_v == chars_view(list@),
            i <= list@.len(),
            forall|k: int| 0 <= k < i ==> lex_lt(#[trigger] old_v[k], x@),
        decreases list@.len() - i,
    {
        i = i + 1;
    }
    if i < list.len() && same_chars(&list[i], &x) {
        assert(old_v[i as int] == x@);
        return;
    }
    proof {
        if i < old_v.len() {
            lemma_lex_lt_total(old_v[i as int], x@);
            assert forall|j: int| i <= j < old_v.len() implies lex_lt(x@, #[trigger] old_v[j]) by {
                if j > i {
                    lemma_lex_lt_transitive(x@, old_v[i as int], old_v[j]);
                }
            }
        }
    }
    list.insert(i, x);
    let ghost new_v = chars_view(list@);
    assert(new_v == old_v.insert(i as int, x@));
    assert forall|a: int, b: int| 0 <= a < b < new_v.len() implies lex_lt(
        #[trigger] new_v[a],
        #[trigger] new_v[b],
    ) by {
        if b < i {
        } else if b == i {
        } else if a < i {
            lemma_lex_lt_transitive(old_v[a], x@, old_v[b - 1]);
        } else if a == i {
        } else {
            assert(lex_lt(old_v[a - 1], old_v[b - 1]));
        }
    }
    assert forall|c: Seq<char>| new_v.contains(c) <==> (old_v.contains(c) || c == x@) by {
        if new_v.contains(c) {
            let k = choose|k: int| 0 <= k < new_v.len() && new_v[k] == c;
            if k < i {
                assert(old_v[k] == c);
            } else if k > i {
                assert(old_v[k - 1] == c);
            }
        }
        if old_v.contains(c) {
            let k = choose|k: int| 0 <= k < old_v.len() && old_v[k] == c;
            if k < i {
                assert(new_v[k] == c);
            } else {
                assert(new_v[k + 1] == c);
            }
        }
        if c == x@ {
            assert(new_v[i as int] == c);
        }
    }
}

/// The completions of `word`: every builtin name and every name in
/// `path_names` that starts with `word`, each once, in lexicographic order.
pub fn get_partial_matches(word: &str, path_names: &Vec<String>) -> (r: Vec<String>)
    ensures
        candidates_ok(strings_view(r@), word@, strings_view(path_names@)),
        strings_view(r@) == candidates(word@, strings_view(path_names@)),
{
    let ghost names = strings_view(path_names@);
    let w = chars_of(word);
    let mut list: Vec<Vec<char>> = Vec::new();
    assert(chars_view(list@) == Seq::<Seq<char>>::empty());
    for i in 0..path_names.len()
        invariant
            w@ == word@,
            names == strings_view(path_names@),
            sorted_strict(chars_view(list@)),
            forall|c: Seq<char>|
                #[trigger] chars_view(list@).contains(c) <==> (w@.is_prefix_of(c) && names.subrange(
                    0,
                    i as int,
                ).contains(c)),
    {
        let cs = chars_of(path_names[i].as_str());
        let ghost before = chars_view(list@);
        let ghost pre = names.subrange(0, i as int);
        let ghost now = names.subrange(0, i + 1);
        assert(now == pre.push(cs@));
        assert(now[i as int] == cs@);
        let ghost x = cs@;
        let ghost fits = w@.is_prefix_of(x);
        if starts_with(&cs, &w) {
            insert_sorted(&mut list, cs);
        }
        assert forall|c: Seq<char>|
            chars_view(list@).contains(c) <==> (w@.is_prefix_of(c) && now.contains(c)) by {
            lemma_contains_push(pre, x, c);
            assert(before.contains(c) <==> (w@.is_prefix_of(c) && pre.contains(c)));
            if fits {
                assert(chars_view(list@).contains(c) <==> (before.contains(c) || c == x));
            } else {
                assert(chars_view(list@) == before);
            }
        }
    }
    assert(names.subrange(0, path_names@.len() as int) == names);
    let bs = builtin_list();
    let ghost bn = builtin_names();
    assert(bn.subrange(0, 0) == Seq::<Seq<char>>::empty());
    for i in 0..bs.len()
        invariant
            w@ == word@,
            names == strings_view(path_names@),
            bs@ == all_builtins(),
            bn == builtin_names(),
            sorted_strict(chars_view(list@)),
            forall|c: Seq<char>|
                #[trigger] chars_view(list@).contains(c) <==> (w@.is_prefix_of(c) && (names.contains(
                    c,
                ) || bn.subrange(0, i as int).contains(c))),
    {
        let cs = bs[i].name_chars();
        let ghost pre = bn.subrange(0, i as int);
        let ghost now = bn.subrange(0, i + 1);
        assert(now == pre.push(cs@));
        assert(now[i as int] == cs@);
        if starts_with(&cs, &w) {
            insert_sorted(&mut list, cs);
        }
        assert forall|c: Seq<char>|
            chars_view(list@).contains(c) <==> (w@.is_prefix_of(c) && (names.contains(c)
                || now.contains(c))) by {
            lemma_contains_push(pre, cs@, c);
        }
    }
    assert(bn.subrange(0, 5) == bn);
    let mut r: Vec<String> = Vec::new();
    for i in 0..list.len()
        invariant
            strings_view(r@) == chars_view(list@).subrange(0, i as int),
    {
        let ghost before = r@;
        r.push(string_of(&list[i]));
        assert(strings_view(r@) == strings_view(before).push(list@[i as int]@));
        assert(chars_view(list@).subrange(0, i + 1) == chars_view(list@).subrange(0, i as int).push(
            list@[i as int]@,
        ));
    }
    assert(chars_view(list@).subrange(0, list@.len() as int) == chars_view(list@));
    proof {
        let cs = strings_view(r@);
        assert(candidates_ok(cs, word@, names));
        lemma_sorted_unique(cs, candidates(word@, names));
    }
    r
}

/// The longest prefix shared by every string of `strs`; empty when there are
/// none.
pub fn longest_common_prefix(strs: &[String]) -> (r: String)
    ensures
        is_lcp(r@, strings_view(strs@)),
        r@ == lcp(strings_view(strs@)),
{
    let ghost ms = strings_view(strs@);
    if strs.len() == 0 {
        let r = String::new();
        proof {
            assert(is_lcp(r@, ms));
            lemma_lcp_unique(r@, lcp(ms), ms);
        }
        return r;
    }
    let first = chars_of(strs[0].as_str());
    let mut k: usize = first.len();
    let ghost mut wit: int = 0;
    for i in 1..strs.len()
        invariant
            ms == strings_view(strs@),
            ms.len() >= 1,
            first@ == ms[0],
            k <= first@.len(),
            forall|j: int| 0 <= j < i ==> first@.subrange(0, k as int).is_prefix_of(#[trigger] ms[j]),
            k == first@.len() || (0 <= wit < i && (ms[wit].len() == k || ms[wit][k as int]
                != first@[k as int])),
    {
        let cs = chars_of(strs[i].as_str());
        let mut j: usize = 0;
        while j < k && j < cs.len() && cs[j] == first[j]
            invariant
                j <= k,
                j <= cs@.len(),
                k <= first@.len(),
                forall|t: int| 0 <= t < j ==> cs@[t] == first@[t],
            decreases k - j,
        {
            j = j + 1;
        }
        let ghost old_k = k;
        proof {
            assert(cs@ == ms[i as int]);
            assert forall|t: int| 0 <= t <= i implies first@.subrange(0, j as int).is_prefix_of(
                #[trigger] ms[t],
            ) by {
                if t < i {
                    assert(first@.subrange(0, old_k as int).is_prefix_of(ms[t]));
                }
            }
            if j < k {
                assert(ms[i as int].len() == j || ms[i as int][j as int] != first@[j as int]);
                wit = i as int;
            }
        }
        k = j;
    }
    let mut p: Vec<char> = Vec::new();
    for t in 0..k
        invariant
            k <= first@.len(),
            p@ == first@.subrange(0, t as int),
    {
        p.push(first[t]);
        assert(first@.subrange(0, t + 1) == first@.subrange(0, t as int).push(first@[t as int]));
    }
    let r = string_of(&p);
    proof {
        assert(r@ == first@.subrange(0, k as int));
        assert(is_common_prefix(r@, ms));
        if k != first@.len() {
            assert(0 <= wit < ms.len() && (ms[wit].len() == r@.len() || ms[wit][r@.len() as int]
                != ms[0][r@.len() as int]));
            assert(stops_at(ms, wit, r@.len() as int));
        } else {
            assert(r@.len() == ms[0].len());
        }
        assert(is_lcp(r@, ms));
        lemma_lcp_unique(r@, lcp(ms), ms);
    }
    r
}

} // verus!

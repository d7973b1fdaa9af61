//! Line diff of two texts along a longest common subsequence of their lines.
use vstd::prelude::*;
use vstd::string::StringExecFns;
use vstd::string::StrSliceExecFns;
use vstd::pervasive::VecAdditionalExecFns;
use crate::text::{push_char, chars_of};

verus! {

/// `l` without one trailing `\r`.
pub open spec fn strip_cr(l: Seq<char>) -> Seq<char> {
    if l.len() > 0 && l.last() == '\r' {
        l.drop_last()
    } else {
        l
    }
}

/// The lines of `s` after the pending line `cur`, as `str::lines` yields them: split at
/// `\n`, a `\r` before the `\n` removed, no empty last line after a final `\n`.
pub open spec fn split_lines(s: Seq<char>, cur: Seq<char>) -> Seq<Seq<char>>
    decreases s.len(),
{
    if s.len() == 0 {
        if cur.len() == 0 {
            Seq::empty()
        } else {
            seq![cur]
        }
    } else if s[0] == '\n' {
        seq![strip_cr(cur)] + split_lines(s.drop_first(), Seq::empty())
    } else {
        split_lines(s.drop_first(), cur.push(s[0]))
    }
}

/// The lines of `s`.
pub open spec fn lines(s: Seq<char>) -> Seq<Seq<char>> {
    split_lines(s, Seq::empty())
}

proof fn lemma_split_lines_step(s: Seq<char>, i: int, cur: Seq<char>)
    requires
        0 <= i < s.len(),
    ensures
        s[i] == '\n' ==> split_lines(s.skip(i), cur) == seq![strip_cr(cur)] + split_lines(
            s.skip(i as int + 1),
            Seq::empty(),
        ),
        s[i] != '\n' ==> split_lines(s.skip(i), cur) == split_lines(s.skip(i as int + 1), cur.push(s[i])),
{
    assert(s.skip(i)[0] == s[i]);
    assert(s.skip(i).drop_first() =~= s.skip(i as int + 1));
}

/// The lines of `s`, as `str::lines` yields them.
fn lines_of(s: &str) -> (out: Vec<String>)
    ensures
        out.deep_view() == lines(s@),
{
    let cs = chars_of(s);
    let mut out: Vec<String> = Vec::new();
    let mut cur = String::new();
    let mut i: usize = 0;
    assert(cs@.skip(0) =~= cs@);
    while i < cs.len()
        invariant
            cs@ == s@,
            i <= cs.len(),
            out.deep_view() + split_lines(cs@.skip(i as int), cur@) == lines(s@),
        decreases cs.len() - i,
    {
        let c = cs[i];
        proof {
            lemma_split_lines_step(cs@, i as int, cur@);
        }
        if c == '\n' {
            let line = strip_trailing_cr(cur);
            let ghost before = out.deep_view();
            out.push(line);
            proof {
                assert(out.deep_view() =~= before.push(line@));
                let rest = split_lines(cs@.skip(i as int + 1), Seq::empty());
                assert(before + (seq![line@] + rest) =~= before.push(line@) + rest);
            }
            cur = String::new();
        } else {
            push_char(&mut cur, c);
        }
        i = i + 1;
    }
    assert(cs@.skip(cs.len() as int) =~= Seq::<char>::empty());
    if !cur.as_str().is_empty() {
        let ghost before = out.deep_view();
        let ghost last = cur@;
        out.push(cur);
        assert(out.deep_view() =~= before + seq![last]);
    } else {
        assert(out.deep_view() =~= out.deep_view() + Seq::<Seq<char>>::empty());
    }
    out
}

fn strip_trailing_cr(line: String) -> (out: String)
    ensures
        out@ == strip_cr(line@),
{
    let cs = chars_of(line.as_str());
    if cs.len() > 0 && cs[cs.len() - 1] == '\r' {
        let mut out = String::new();
        let mut k: usize = 0;
        while k + 1 < cs.len()
            invariant
                cs@ == line@,
                cs.len() > 0,
                k + 1 <= cs.len(),
                out@ == cs@.take(k as int),
            decreases cs.len() - k,
        {
            push_char(&mut out, cs[k]);
            proof {
                assert(cs@.take(k + 1) =~= cs@.take(k as int).push(cs@[k as int]));
            }
            k = k + 1;
        }
        assert(cs@.take(k as int) =~= cs@.drop_last());
        out
    } else {
        line
    }
}

// ---------------------------------------------------------------------------
// Longest common subsequence and the edit script along it
// ---------------------------------------------------------------------------

/// `len - i`, or `0` past the end.
pub open spec fn rest_len(len: nat, i: nat) -> nat {
    if i <= len {
        (len - i) as nat
    } else {
        0
    }
}

/// The length of a longest common subsequence of `e[i..]` and `a[j..]`.
pub open spec fn lcs_len(e: Seq<Seq<char>>, a: Seq<Seq<char>>, i: nat, j: nat) -> nat
    decreases rest_len(e.len(), i) + rest_len(a.len(), j),
{
    if i >= e.len() || j >= a.len() {
        0
    } else if e[i as int] == a[j as int] {
        1 + lcs_len(e, a, i + 1, j + 1)
    } else {
        let x = lcs_len(e, a, i + 1, j);
        let y = lcs_len(e, a, i, j + 1);
        if x >= y {
            x
        } else {
            y
        }
    }
}

/// One line of a diff: kept from both texts, removed from the expected one, or added
/// by the actual one.
pub ghost enum DiffLine {
    Keep(Seq<char>),
    Remove(Seq<char>),
    Add(Seq<char>),
}

/// The edit script from `e[i..]` to `a[j..]`: equal first lines are kept; otherwise the
/// expected line is removed when that keeps as long a common subsequence as adding the
/// actual line, and the actual line is added when it keeps a longer one.
pub open spec fn diff_ops(e: Seq<Seq<char>>, a: Seq<Seq<char>>, i: nat, j: nat) -> Seq<DiffLine>
    decreases rest_len(e.len(), i) + rest_len(a.len(), j),
{
    if i >= e.len() {
        if j >= a.len() {
            Seq::empty()
        } else {
            seq![DiffLine::Add(a[j as int])] + diff_ops(e, a, i, j + 1)
        }
    } else if j >= a.len() {
        seq![DiffLine::Remove(e[i as int])] + diff_ops(e, a, i + 1, j)
    } else if e[i as int] == a[j as int] {
        seq![DiffLine::Keep(e[i as int])] + diff_ops(e, a, i + 1, j + 1)
    } else if lcs_len(e, a, i + 1, j) >= lcs_len(e, a, i, j + 1) {
        seq![DiffLine::Remove(e[i as int])] + diff_ops(e, a, i + 1, j)
    } else {
        seq![DiffLine::Add(a[j as int])] + diff_ops(e, a, i, j + 1)
    }
}

/// A diff line as text: a space, `-` or `+`, the line, and `\n`.
pub open spec fn render_line(d: DiffLine) -> Seq<char> {
    match d {
        DiffLine::Keep(t) => seq![' '] + t + seq!['\n'],
        DiffLine::Remove(t) => seq!['-'] + t + seq!['\n'],
        DiffLine::Add(t) => seq!['+'] + t + seq!['\n'],
    }
}

/// The text of an edit script.
pub open spec fn render(ops: Seq<DiffLine>) -> Seq<char>
    decreases ops.len(),
{
    if ops.len() == 0 {
        Seq::empty()
    } else {
        render_line(ops[0]) + render(ops.drop_first())
    }
}

/// The line diff of `expected` against `actual`.
pub open spec fn line_diff_spec(expected: Seq<char>, actual: Seq<char>) -> Seq<char> {
    render(diff_ops(lines(expected), lines(actual), 0, 0))
}

/// The lines an edit script keeps or removes: the text it starts from.
pub open spec fn old_side(ops: Seq<DiffLine>) -> Seq<Seq<char>>
    decreases ops.len(),
{
    if ops.len() == 0 {
        Seq::empty()
    } else {
        match ops[0] {
            DiffLine::Keep(t) => seq![t] + old_side(ops.drop_first()),
            DiffLine::Remove(t) => seq![t] + old_side(ops.drop_first()),
            DiffLine::Add(_) => old_side(ops.drop_first()),
        }
    }
}

/// The lines an edit script keeps or adds: the text it arrives at.
pub open spec fn new_side(ops: Seq<DiffLine>) -> Seq<Seq<char>>
    decreases ops.len(),
{
    if ops.len() == 0 {
        Seq::empty()
    } else {
        match ops[0] {
            DiffLine::Keep(t) => seq![t] + new_side(ops.drop_first()),
            DiffLine::Remove(_) => new_side(ops.drop_first()),
            DiffLine::Add(t) => seq![t] + new_side(ops.drop_first()),
        }
    }
}

/// How many lines an edit script keeps.
pub open spec fn kept(ops: Seq<DiffLine>) -> nat
    decreases ops.len(),
{
    if ops.len() == 0 {
        0
    } else {
        (if ops[0] is Keep { 1nat } else { 0nat }) + kept(ops.drop_first())
    }
}

proof fn lemma_cons(d: DiffLine, rest: Seq<DiffLine>)
    ensures
        render(seq![d] + rest) == render_line(d) + render(rest),
        old_side(seq![d] + rest) == (match d {
            DiffLine::Add(_) => old_side(rest),
            DiffLine::Keep(t) => seq![t] + old_side(rest),
            DiffLine::Remove(t) => seq![t] + old_side(rest),
        }),
        new_side(seq![d] + rest) == (match d {
            DiffLine::Remove(_) => new_side(rest),
            DiffLine::Keep(t) => seq![t] + new_side(rest),
            DiffLine::Add(t) => seq![t] + new_side(rest),
        }),
        kept(seq![d] + rest) == (if d is Keep { 1nat } else { 0nat }) + kept(rest),
{
    let s = seq![d] + rest;
    assert(s[0] == d);
    assert(s.drop_first() =~= rest);
}

proof fn lemma_lcs_bound(e: Seq<Seq<char>>, a: Seq<Seq<char>>, i: nat, j: nat)
    ensures
        lcs_len(e, a, i, j) <= rest_len(e.len(), i),
    decreases rest_len(e.len(), i) + rest_len(a.len(), j),
{
    if i < e.len() && j < a.len() {
        lemma_lcs_bound(e, a, i + 1, j + 1);
        lemma_lcs_bound(e, a, i + 1, j);
        lemma_lcs_bound(e, a, i, j + 1);
    }
}

/// The edit script from `e[i..]` to `a[j..]` starts from `e[i..]`, arrives at `a[j..]`,
/// and keeps `lcs_len(e, a, i, j)` lines.
proof fn lemma_diff_ops_sides(e: Seq<Seq<char>>, a: Seq<Seq<char>>, i: nat, j: nat)
    requires
        i <= e.len(),
        j <= a.len(),
    ensures
        old_side(diff_ops(e, a, i, j)) == e.skip(i as int),
        new_side(diff_ops(e, a, i, j)) == a.skip(j as int),
        kept(diff_ops(e, a, i, j)) == lcs_len(e, a, i, j),
    decreases rest_len(e.len(), i) + rest_len(a.len(), j),
{
    if i >= e.len() && j >= a.len() {
        assert(e.skip(i as int) =~= Seq::<Seq<char>>::empty());
        assert(a.skip(j as int) =~= Seq::<Seq<char>>::empty());
    } else if i >= e.len() {
        lemma_diff_ops_sides(e, a, i, j + 1);
        lemma_cons(DiffLine::Add(a[j as int]), diff_ops(e, a, i, j + 1));
        assert(a.skip(j as int) =~= seq![a[j as int]] + a.skip(j as int + 1));
        assert(lcs_len(e, a, i, j + 1) == 0);
    } else if j >= a.len() {
        lemma_diff_ops_sides(e, a, i + 1, j);
        lemma_cons(DiffLine::Remove(e[i as int]), diff_ops(e, a, i + 1, j));
        assert(e.skip(i as int) =~= seq![e[i as int]] + e.skip(i as int + 1));
        assert(lcs_len(e, a, i + 1, j) == 0);
    } else if e[i as int] == a[j as int] {
        lemma_diff_ops_sides(e, a, i + 1, j + 1);
        lemma_cons(DiffLine::Keep(e[i as int]), diff_ops(e, a, i + 1, j + 1));
        assert(e.skip(i as int) =~= seq![e[i as int]] + e.skip(i as int + 1));
        assert(a.skip(j as int) =~= seq![a[j as int]] + a.skip(j as int + 1));
    } else if lcs_len(e, a, i + 1, j) >= lcs_len(e, a, i, j + 1) {
        lemma_diff_ops_sides(e, a, i + 1, j);
        lemma_cons(DiffLine::Remove(e[i as int]), diff_ops(e, a, i + 1, j));
        assert(e.skip(i as int) =~= seq![e[i as int]] + e.skip(i as int + 1));
    } else {
        lemma_diff_ops_sides(e, a, i, j + 1);
        lemma_cons(DiffLine::Add(a[j as int]), diff_ops(e, a, i, j + 1));
        assert(a.skip(j as int) =~= seq![a[j as int]] + a.skip(j as int + 1));
    }
}

/// The line diff is an edit script from the expected lines to the actual lines that
/// keeps a longest common subsequence of them: its kept and removed lines are the
/// expected lines in order, its kept and added lines are the actual lines in order,
/// and it keeps `lcs_len` lines.
pub proof fn lemma_line_diff_is_lcs_edit_script(expected: Seq<char>, actual: Seq<char>)
    ensures
        render(diff_ops(lines(expected), lines(actual), 0, 0)) == line_diff_spec(expected, actual),
        old_side(diff_ops(lines(expected), lines(actual), 0, 0)) == lines(expected),
        new_side(diff_ops(lines(expected), lines(actual), 0, 0)) == lines(actual),
        kept(diff_ops(lines(expected), lines(actual), 0, 0)) == lcs_len(
            lines(expected),
            lines(actual),
            0,
            0,
        ),
{
    let e = lines(expected);
    let a = lines(actual);
    lemma_diff_ops_sides(e, a, 0, 0);
    assert(e.skip(0) =~= e);
    assert(a.skip(0) =~= a);
}

/// `ie` and `ia` pick the same lines, in the same order, from `e[i..]` and `a[j..]`: a
/// common subsequence given by its positions in each.
pub open spec fn common_subsequence(
    e: Seq<Seq<char>>,
    a: Seq<Seq<char>>,
    ie: Seq<int>,
    ia: Seq<int>,
    i: int,
    j: int,
) -> bool {
    &&& ie.len() == ia.len()
    &&& forall|k: int|
        0 <= k < ie.len() ==> i <= #[trigger] ie[k] < e.len() && j <= #[trigger] ia[k] < a.len()
            && e[ie[k]] == a[ia[k]]
    &&& forall|k: int| 0 <= k < ie.len() - 1 ==> #[trigger] ie[k] < ie[k + 1] && ia[k] < ia[k + 1]
}

proof fn lemma_common_subsequence_bound(
    e: Seq<Seq<char>>,
    a: Seq<Seq<char>>,
    ie: Seq<int>,
    ia: Seq<int>,
    i: nat,
    j: nat,
)
    requires
        common_subsequence(e, a, ie, ia, i as int, j as int),
    ensures
        ie.len() <= lcs_len(e, a, i, j),
    decreases rest_len(e.len(), i) + rest_len(a.len(), j),
{
    if ie.len() > 0 {
        let p = ie[0];
        let q = ia[0];
        assert(i <= p < e.len() && j <= q < a.len());
        let te = ie.drop_first();
        let ta = ia.drop_first();
        if e[i as int] == a[j as int] {
            assert(common_subsequence(e, a, te, ta, i as int + 1, j as int + 1)) by {
                assert forall|k: int| 0 <= k < te.len() implies i + 1 <= #[trigger] te[k] < e.len()
                    && j + 1 <= #[trigger] ta[k] < a.len() && e[te[k]] == a[ta[k]] by {
                    assert(te[k] == ie[k + 1] && ta[k] == ia[k + 1]);
                    if k == 0 {
                        assert(ie[0] < ie[1] && ia[0] < ia[1]);
                    } else {
                        assert(ie[k] < ie[k + 1] && ia[k] < ia[k + 1]);
                        assert(i <= ie[k] && j <= ia[k]);
                    }
                }
                assert forall|k: int| 0 <= k < te.len() - 1 implies #[trigger] te[k] < te[k + 1]
                    && ta[k] < ta[k + 1] by {
                    assert(te[k] == ie[k + 1] && te[k + 1] == ie[k + 2]);
                    assert(ta[k] == ia[k + 1] && ta[k + 1] == ia[k + 2]);
                    assert(ie[k + 1] < ie[k + 2]);
                }
            }
            lemma_common_subsequence_bound(e, a, te, ta, i + 1, j + 1);
        } else if p > i {
            assert(common_subsequence(e, a, ie, ia, i as int + 1, j as int)) by {
                assert forall|k: int| 0 <= k < ie.len() implies i + 1 <= #[trigger] ie[k] by {
                    if k > 0 {
                        lemma_increasing(ie, ia, i as int, j as int, e, a, k);
                    }
                }
            }
            lemma_common_subsequence_bound(e, a, ie, ia, i + 1, j);
        } else {
            assert(p == i);
            assert(q > j);
            assert(common_subsequence(e, a, ie, ia, i as int, j as int + 1)) by {
                assert forall|k: int| 0 <= k < ia.len() implies j + 1 <= #[trigger] ia[k] by {
                    if k > 0 {
                        lemma_increasing(ie, ia, i as int, j as int, e, a, k);
                    }
                }
            }
            lemma_common_subsequence_bound(e, a, ie, ia, i, j + 1);
        }
    }
}

proof fn lemma_increasing(
    ie: Seq<int>,
    ia: Seq<int>,
    i: int,
    j: int,
    e: Seq<Seq<char>>,
    a: Seq<Seq<char>>,
    k: int,
)
    requires
        common_subsequence(e, a, ie, ia, i, j),
        0 <= k < ie.len(),
    ensures
        ie[0] <= ie[k],
        ia[0] <= ia[k],
        k > 0 ==> ie[0] < ie[k] && ia[0] < ia[k],
    decreases k,
{
    if k > 0 {
        lemma_increasing(ie, ia, i, j, e, a, k - 1);
        assert(ie[k - 1] < ie[k] && ia[k - 1] < ia[k]);
    }
}

/// No common subsequence of two line sequences is longer than `lcs_len`, so the line
/// diff, which keeps `lcs_len` lines, keeps a longest one.
pub proof fn lemma_no_common_subsequence_is_longer(
    e: Seq<Seq<char>>,
    a: Seq<Seq<char>>,
    ie: Seq<int>,
    ia: Seq<int>,
)
    requires
        common_subsequence(e, a, ie, ia, 0, 0),
    ensures
        ie.len() <= lcs_len(e, a, 0, 0),
{
    lemma_common_subsequence_bound(e, a, ie, ia, 0, 0);
}

/// Every line of `l` prefixed with a space.
pub open spec fn context_lines(l: Seq<Seq<char>>) -> Seq<char>
    decreases l.len(),
{
    if l.len() == 0 {
        Seq::empty()
    } else {
        seq![' '] + l[0] + seq!['\n'] + context_lines(l.drop_first())
    }
}

proof fn lemma_diff_of_same_lines(l: Seq<Seq<char>>, i: nat)
    requires
        i <= l.len(),
    ensures
        render(diff_ops(l, l, i, i)) == context_lines(l.skip(i as int)),
    decreases l.len() - i,
{
    if i < l.len() {
        lemma_diff_of_same_lines(l, i + 1);
        lemma_cons(DiffLine::Keep(l[i as int]), diff_ops(l, l, i + 1, i + 1));
        let s = l.skip(i as int);
        assert(s[0] == l[i as int]);
        assert(s.drop_first() =~= l.skip(i as int + 1));
        assert(render_line(DiffLine::Keep(l[i as int])) + context_lines(l.skip(i as int + 1))
            =~= seq![' '] + s[0] + seq!['\n'] + context_lines(s.drop_first()));
    } else {
        assert(l.skip(i as int) =~= Seq::<Seq<char>>::empty());
    }
}

/// Equal texts give a diff with no `-` or `+` line: every line is kept as context.
pub proof fn lemma_line_diff_of_equal_texts(s: Seq<char>)
    ensures
        line_diff_spec(s, s) == context_lines(lines(s)),
{
    lemma_diff_of_same_lines(lines(s), 0);
    assert(lines(s).skip(0) =~= lines(s));
}

// ---------------------------------------------------------------------------
// The lines of the rendered diff
// ---------------------------------------------------------------------------

/// `t` has no line break and does not end in a carriage return, so it reads back as one
/// line unchanged.
pub open spec fn plain_line(t: Seq<char>) -> bool {
    &&& forall|k: int| 0 <= k < t.len() ==> #[trigger] t[k] != '\n'
    &&& !(t.len() > 0 && t.last() == '\r')
}

/// A diff line as text without its line break: the marker, then the line.
pub open spec fn tagged_text(d: DiffLine) -> Seq<char> {
    match d {
        DiffLine::Keep(t) => seq![' '] + t,
        DiffLine::Remove(t) => seq!['-'] + t,
        DiffLine::Add(t) => seq!['+'] + t,
    }
}

/// The text of a diff line's content.
pub open spec fn line_text(d: DiffLine) -> Seq<char> {
    match d {
        DiffLine::Keep(t) => t,
        DiffLine::Remove(t) => t,
        DiffLine::Add(t) => t,
    }
}

/// The lines of a diff that do not start with `marker`, each without its first character.
pub open spec fn side_of(ls: Seq<Seq<char>>, marker: char) -> Seq<Seq<char>>
    decreases ls.len(),
{
    if ls.len() == 0 {
        Seq::empty()
    } else if ls[0].len() > 0 && ls[0][0] == marker {
        side_of(ls.drop_first(), marker)
    } else {
        seq![ls[0].drop_first()] + side_of(ls.drop_first(), marker)
    }
}

proof fn lemma_split_line(x: Seq<char>, rest: Seq<char>, cur: Seq<char>)
    requires
        forall|k: int| 0 <= k < x.len() ==> #[trigger] x[k] != '\n',
    ensures
        split_lines(x + seq!['\n'] + rest, cur) == seq![strip_cr(cur + x)] + split_lines(
            rest,
            Seq::empty(),
        ),
    decreases x.len(),
{
    let s = x + seq!['\n'] + rest;
    if x.len() == 0 {
        assert(s[0] == '\n');
        assert(s.drop_first() =~= rest);
        assert(cur + x =~= cur);
    } else {
        assert(s[0] == x[0]);
        assert(s.drop_first() =~= x.drop_first() + seq!['\n'] + rest);
        assert forall|k: int| 0 <= k < x.drop_first().len() implies #[trigger] x.drop_first()[k]
            != '\n' by {
            assert(x.drop_first()[k] == x[k + 1]);
        }
        lemma_split_line(x.drop_first(), rest, cur.push(x[0]));
        assert(cur.push(x[0]) + x.drop_first() =~= cur + x);
    }
}

proof fn lemma_lines_of_render(ops: Seq<DiffLine>)
    requires
        forall|k: int| 0 <= k < ops.len() ==> plain_line(line_text(#[trigger] ops[k])),
    ensures
        lines(render(ops)) == ops.map_values(|d: DiffLine| tagged_text(d)),
    decreases ops.len(),
{
    if ops.len() == 0 {
        assert(render(ops) =~= Seq::<char>::empty());
        assert(ops.map_values(|d: DiffLine| tagged_text(d)) =~= Seq::<Seq<char>>::empty());
    } else {
        let d = ops[0];
        let rest = ops.drop_first();
        assert forall|k: int| 0 <= k < rest.len() implies plain_line(line_text(#[trigger] rest[k])) by {
            assert(rest[k] == ops[k + 1]);
        }
        lemma_lines_of_render(rest);
        let x = tagged_text(d);
        assert(plain_line(line_text(ops[0])));
        assert(render_line(d) =~= x + seq!['\n']);
        assert forall|k: int| 0 <= k < x.len() implies #[trigger] x[k] != '\n' by {
            if k > 0 {
                assert(x[k] == line_text(d)[k - 1]);
            }
        }
        lemma_split_line(x, render(rest), Seq::empty());
        assert(Seq::<char>::empty() + x =~= x);
        if line_text(d).len() > 0 {
            assert(x.last() == line_text(d).last());
        }
        assert(strip_cr(x) == x);
        assert(render(ops) =~= x + seq!['\n'] + render(rest));
        assert(ops.map_values(|d: DiffLine| tagged_text(d)) =~= seq![x] + rest.map_values(
            |d: DiffLine| tagged_text(d),
        ));
    }
}

proof fn lemma_sides_of_tagged(ops: Seq<DiffLine>)
    ensures
        side_of(ops.map_values(|d: DiffLine| tagged_text(d)), '+') == old_side(ops),
        side_of(ops.map_values(|d: DiffLine| tagged_text(d)), '-') == new_side(ops),
    decreases ops.len(),
{
    let m = ops.map_values(|d: DiffLine| tagged_text(d));
    if ops.len() == 0 {
        assert(m =~= Seq::<Seq<char>>::empty());
    } else {
        let rest = ops.drop_first();
        lemma_sides_of_tagged(rest);
        assert(m.drop_first() =~= rest.map_values(|d: DiffLine| tagged_text(d)));
        lemma_cons(ops[0], rest);
        assert(seq![ops[0]] + rest =~= ops);
        let x = tagged_text(ops[0]);
        assert(m[0] == x);
        assert(x.drop_first() =~= line_text(ops[0]));
    }
}

proof fn lemma_diff_ops_plain(e: Seq<Seq<char>>, a: Seq<Seq<char>>, i: nat, j: nat)
    requires
        forall|k: int| 0 <= k < e.len() ==> plain_line(#[trigger] e[k]),
        forall|k: int| 0 <= k < a.len() ==> plain_line(#[trigger] a[k]),
    ensures
        forall|k: int|
            0 <= k < diff_ops(e, a, i, j).len() ==> plain_line(
                line_text(#[trigger] diff_ops(e, a, i, j)[k]),
            ),
    decreases rest_len(e.len(), i) + rest_len(a.len(), j),
{
    let ops = diff_ops(e, a, i, j);
    if i >= e.len() && j >= a.len() {
    } else {
        let (d, ni, nj) = if i >= e.len() {
            (DiffLine::Add(a[j as int]), i, j + 1)
        } else if j >= a.len() {
            (DiffLine::Remove(e[i as int]), i + 1, j)
        } else if e[i as int] == a[j as int] {
            (DiffLine::Keep(e[i as int]), i + 1, j + 1)
        } else if lcs_len(e, a, i + 1, j) >= lcs_len(e, a, i, j + 1) {
            (DiffLine::Remove(e[i as int]), i + 1, j)
        } else {
            (DiffLine::Add(a[j as int]), i, j + 1)
        };
        lemma_diff_ops_plain(e, a, ni, nj);
        let rest = diff_ops(e, a, ni, nj);
        assert(ops == seq![d] + rest);
        assert forall|k: int| 0 <= k < ops.len() implies plain_line(line_text(#[trigger] ops[k])) by {
            if k > 0 {
                assert(ops[k] == rest[k - 1]);
            }
        }
    }
}

/// The lines of the line diff: dropping the lines that start with `+` and the first
/// character of the others gives the expected lines; dropping those that start with `-`
/// likewise gives the actual lines. This holds when no line of either text ends in a
/// carriage return that `str::lines` keeps (a line ending `\r\r\n`), since the diff's own
/// line would lose it when read back.
pub proof fn lemma_line_diff_lines(expected: Seq<char>, actual: Seq<char>)
    requires
        forall|k: int| 0 <= k < lines(expected).len() ==> !(#[trigger] lines(expected)[k].len() > 0
            && lines(expected)[k].last() == '\r'),
        forall|k: int| 0 <= k < lines(actual).len() ==> !(#[trigger] lines(actual)[k].len() > 0
            && lines(actual)[k].last() == '\r'),
    ensures
        side_of(lines(line_diff_spec(expected, actual)), '+') == lines(expected),
        side_of(lines(line_diff_spec(expected, actual)), '-') == lines(actual),
        forall|k: int|
            0 <= k < lines(line_diff_spec(expected, actual)).len() ==> {
                let l = #[trigger] lines(line_diff_spec(expected, actual))[k];
                l.len() > 0 && (l[0] == ' ' || l[0] == '-' || l[0] == '+')
            },
{
    let e = lines(expected);
    let a = lines(actual);
    lemma_lines_have_no_break(expected);
    lemma_lines_have_no_break(actual);
    assert forall|k: int| 0 <= k < e.len() implies plain_line(#[trigger] e[k]) by {}
    assert forall|k: int| 0 <= k < a.len() implies plain_line(#[trigger] a[k]) by {}
    let ops = diff_ops(e, a, 0, 0);
    lemma_diff_ops_plain(e, a, 0, 0);
    lemma_lines_of_render(ops);
    lemma_sides_of_tagged(ops);
    lemma_line_diff_is_lcs_edit_script(expected, actual);
    let m = ops.map_values(|d: DiffLine| tagged_text(d));
    assert forall|k: int| 0 <= k < m.len() implies {
        let l = #[trigger] m[k];
        l.len() > 0 && (l[0] == ' ' || l[0] == '-' || l[0] == '+')
    } by {
        assert(m[k] == tagged_text(ops[k]));
    }
}

proof fn lemma_split_lines_no_break(s: Seq<char>, cur: Seq<char>)
    requires
        forall|k: int| 0 <= k < cur.len() ==> #[trigger] cur[k] != '\n',
    ensures
        forall|k: int, q: int|
            0 <= k < split_lines(s, cur).len() && 0 <= q < split_lines(s, cur)[k].len()
                ==> #[trigger] split_lines(s, cur)[k][q] != '\n',
    decreases s.len(),
{
    if s.len() == 0 {
        if cur.len() > 0 {
            assert(split_lines(s, cur) == seq![cur]);
            assert forall|k: int, q: int|
                0 <= k < split_lines(s, cur).len() && 0 <= q < split_lines(s, cur)[k].len()
                    implies #[trigger] split_lines(s, cur)[k][q] != '\n' by {
                assert(split_lines(s, cur)[k] == cur);
            }
        }
    } else if s[0] == '\n' {
        let empty = Seq::<char>::empty();
        lemma_split_lines_no_break(s.drop_first(), empty);
        let rest = split_lines(s.drop_first(), empty);
        let c = strip_cr(cur);
        assert forall|q: int| 0 <= q < c.len() implies #[trigger] c[q] != '\n' by {
            assert(c[q] == cur[q]);
        }
        assert forall|k: int, q: int|
            0 <= k < split_lines(s, cur).len() && 0 <= q < split_lines(s, cur)[k].len()
                implies #[trigger] split_lines(s, cur)[k][q] != '\n' by {
            if k > 0 {
                assert(split_lines(s, cur)[k] == rest[k - 1]);
            }
        }
    } else {
        let c2 = cur.push(s[0]);
        assert forall|k: int| 0 <= k < c2.len() implies #[trigger] c2[k] != '\n' by {
            if k < cur.len() {
                assert(c2[k] == cur[k]);
            }
        }
        lemma_split_lines_no_break(s.drop_first(), c2);
        assert(split_lines(s, cur) == split_lines(s.drop_first(), c2));
    }
}

/// No line of a text holds a line break.
proof fn lemma_lines_have_no_break(s: Seq<char>)
    ensures
        forall|k: int, q: int|
            0 <= k < lines(s).len() && 0 <= q < lines(s)[k].len() ==> #[trigger] lines(s)[k][q]
                != '\n',
{
    lemma_split_lines_no_break(s, Seq::empty());
}

// ---------------------------------------------------------------------------
// Executable diff
// ---------------------------------------------------------------------------

fn zero_row(len: usize) -> (row: Vec<usize>)
    ensures
        row@ == Seq::new(len as nat, |k: int| 0usize),
{
    let mut row: Vec<usize> = Vec::new();
    while row.len() < len
        invariant
            row.len() <= len,
            forall|k: int| 0 <= k < row.len() ==> row@[k] == 0usize,
        decreases len - row.len(),
    {
        row.push(0usize);
    }
    assert(row@ =~= Seq::new(len as nat, |k: int| 0usize));
    row
}

/// The table of `lcs_len(e, a, i, j)` for `i < e.len()`, `j < a.len()`.
#[verifier::spinoff_prover]
fn lcs_table(e: &Vec<String>, a: &Vec<String>) -> (t: Vec<Vec<usize>>)
    ensures
        t.len() == e.len(),
        forall|i: int| 0 <= i < e.len() ==> (#[trigger] t@[i]).len() == a.len(),
        forall|i: int, j: int|
            0 <= i < e.len() && 0 <= j < a.len() ==> (#[trigger] t@[i]@[j]) as nat == lcs_len(
                e.deep_view(),
                a.deep_view(),
                i as nat,
                j as nat,
            ),
{
    let ghost ev = e.deep_view();
    let ghost av = a.deep_view();
    let n = e.len();
    let m = a.len();
    let mut t: Vec<Vec<usize>> = Vec::new();
    while t.len() < n
        invariant
            t.len() <= n,
            n == e.len(),
            m == a.len(),
            forall|k: int| 0 <= k < t.len() ==> (#[trigger] t@[k])@ == Seq::new(
                m as nat,
                |q: int| 0usize,
            ),
        decreases n - t.len(),
    {
        t.push(zero_row(m));
    }
    let mut i: usize = n;
    while i > 0
        invariant
            i <= n,
            n == e.len(),
            m == a.len(),
            ev == e.deep_view(),
            av == a.deep_view(),
            t.len() == n,
            forall|k: int| 0 <= k < n ==> (#[trigger] t@[k]).len() == m,
            forall|k: int, q: int|
                i <= k < n && 0 <= q < m ==> (#[trigger] t@[k]@[q]) as nat == lcs_len(
                    ev,
                    av,
                    k as nat,
                    q as nat,
                ),
        decreases i,
    {
        i = i - 1;
        let mut row = zero_row(m);
        let mut j: usize = m;
        while j > 0
            invariant
                i < n,
                j <= m,
                n == e.len(),
                m == a.len(),
                ev == e.deep_view(),
                av == a.deep_view(),
                t.len() == n,
                forall|k: int| 0 <= k < n ==> (#[trigger] t@[k]).len() == m,
                forall|k: int, q: int|
                    i + 1 <= k < n && 0 <= q < m ==> (#[trigger] t@[k]@[q]) as nat == lcs_len(
                        ev,
                        av,
                        k as nat,
                        q as nat,
                    ),
                row.len() == m,
                forall|q: int| j <= q < m ==> (#[trigger] row@[q]) as nat == lcs_len(
                    ev,
                    av,
                    i as nat,
                    q as nat,
                ),
            decreases j,
        {
            j = j - 1;
            assert(ev[i as int] == e@[i as int]@ && av[j as int] == a@[j as int]@);
            let v = if e[i] == a[j] {
                proof {
                    lemma_lcs_bound(ev, av, (i + 1) as nat, (j + 1) as nat);
                }
                let diag = if i + 1 < n && j + 1 < m { t[i + 1][j + 1] } else { 0 };
                assert(diag as nat == lcs_len(ev, av, (i + 1) as nat, (j + 1) as nat));
                diag + 1
            } else {
                let down = if i + 1 < n { t[i + 1][j] } else { 0 };
                let right = if j + 1 < m { row[j + 1] } else { 0 };
                assert(down as nat == lcs_len(ev, av, (i + 1) as nat, j as nat));
                assert(right as nat == lcs_len(ev, av, i as nat, (j + 1) as nat));
                if down >= right {
                    down
                } else {
                    right
                }
            };
            assert(v as nat == lcs_len(ev, av, i as nat, j as nat));
            let ghost old_row = row@;
            row.set(j, v);
            assert forall|q: int| j <= q < m implies (#[trigger] row@[q]) as nat == lcs_len(
                ev,
                av,
                i as nat,
                q as nat,
            ) by {
                if q != j {
                    assert(row@[q] == old_row[q]);
                }
            }
        }
        t.set(i, row);
    }
    t
}

/// `lcs_len(e, a, i, j)` read from the table, `0` on the last row or column.
fn table_at(t: &Vec<Vec<usize>>, e: &Vec<String>, a: &Vec<String>, i: usize, j: usize) -> (v: usize)
    requires
        i <= e.len(),
        j <= a.len(),
        t.len() == e.len(),
        forall|k: int| 0 <= k < e.len() ==> (#[trigger] t@[k]).len() == a.len(),
        forall|k: int, q: int|
            0 <= k < e.len() && 0 <= q < a.len() ==> (#[trigger] t@[k]@[q]) as nat == lcs_len(
                e.deep_view(),
                a.deep_view(),
                k as nat,
                q as nat,
            ),
    ensures
        v as nat == lcs_len(e.deep_view(), a.deep_view(), i as nat, j as nat),
{
    if i < e.len() && j < a.len() {
        t[i][j]
    } else {
        0
    }
}

/// Line diff along a longest common subsequence of the lines, in unified-diff style: a
/// space before kept lines, `-` before lines only in `expected`, `+` before lines only
/// in `actual`; within a change, removed lines come first where the choice is free.
#[verifier::spinoff_prover]
pub fn line_diff(expected: &str, actual: &str) -> (out: String)
    ensures
        out@ == line_diff_spec(expected@, actual@),
{
    let e = lines_of(expected);
    let a = lines_of(actual);
    let ghost ev = e.deep_view();
    let ghost av = a.deep_view();
    let t = lcs_table(&e, &a);
    let n = e.len();
    let m = a.len();
    let mut out = String::new();
    let mut i: usize = 0;
    let mut j: usize = 0;
    while i < n || j < m
        invariant
            i <= n,
            j <= m,
            n == e.len(),
            m == a.len(),
            ev == e.deep_view(),
            av == a.deep_view(),
            ev == lines(expected@),
            av == lines(actual@),
            t.len() == n,
            forall|k: int| 0 <= k < n ==> (#[trigger] t@[k]).len() == m,
            forall|k: int, q: int|
                0 <= k < n && 0 <= q < m ==> (#[trigger] t@[k]@[q]) as nat == lcs_len(
                    ev,
                    av,
                    k as nat,
                    q as nat,
                ),
            out@ + render(diff_ops(ev, av, i as nat, j as nat)) == render(diff_ops(ev, av, 0, 0)),
        decreases (n - i) + (m - j),
    {
        let ghost before = out@;
        if i >= n {
            assert(av[j as int] == a@[j as int]@);
            push_char(&mut out, '+');
            out.append(a[j].as_str());
            push_char(&mut out, '\n');
            proof {
                lemma_cons(DiffLine::Add(av[j as int]), diff_ops(ev, av, i as nat, (j + 1) as nat));
                assert(out@ =~= before + render_line(DiffLine::Add(av[j as int])));
            }
            j = j + 1;
        } else if j >= m {
            assert(ev[i as int] == e@[i as int]@);
            push_char(&mut out, '-');
            out.append(e[i].as_str());
            push_char(&mut out, '\n');
            proof {
                lemma_cons(DiffLine::Remove(ev[i as int]), diff_ops(ev, av, (i + 1) as nat, j as nat));
                assert(out@ =~= before + render_line(DiffLine::Remove(ev[i as int])));
            }
            i = i + 1;
        } else {
            assert(ev[i as int] == e@[i as int]@ && av[j as int] == a@[j as int]@);
            if e[i] == a[j] {
                push_char(&mut out, ' ');
                out.append(e[i].as_str());
                push_char(&mut out, '\n');
                proof {
                    lemma_cons(
                        DiffLine::Keep(ev[i as int]),
                        diff_ops(ev, av, (i + 1) as nat, (j + 1) as nat),
                    );
                    assert(out@ =~= before + render_line(DiffLine::Keep(ev[i as int])));
                }
                i = i + 1;
                j = j + 1;
            } else if table_at(&t, &e, &a, i + 1, j) >= table_at(&t, &e, &a, i, j + 1) {
                push_char(&mut out, '-');
                out.append(e[i].as_str());
                push_char(&mut out, '\n');
                proof {
                    lemma_cons(
                        DiffLine::Remove(ev[i as int]),
                        diff_ops(ev, av, (i + 1) as nat, j as nat),
                    );
                    assert(out@ =~= before + render_line(DiffLine::Remove(ev[i as int])));
                }
                i = i + 1;
            } else {
                push_char(&mut out, '+');
                out.append(a[j].as_str());
                push_char(&mut out, '\n');
                proof {
                    lemma_cons(DiffLine::Add(av[j as int]), diff_ops(ev, av, i as nat, (j + 1) as nat));
                    assert(out@ =~= before + render_line(DiffLine::Add(av[j as int])));
                }
                j = j + 1;
            }
        }
    }
    assert(diff_ops(ev, av, n as nat, m as nat) =~= Seq::<DiffLine>::empty());
    assert(out@ + Seq::<char>::empty() =~= out@);
    out
}

} // verus!

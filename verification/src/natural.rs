//! Natural ("alphanumeric") ordering of names, in which digit runs compare by
//! their numeric value, and a stable insertion sort by that ordering.

use alphanumeric_sort::compare_str;
use std::cmp::Ordering;
use vstd::prelude::*;

verus! {

broadcast use vstd::seq_lib::group_to_multiset_ensures;

/// Sign of the natural comparison of two names: negative when `a` sorts
/// before `b`, zero when they are equal in that order, positive when after.
pub uninterp spec fn natural_order(a: Seq<char>, b: Seq<char>) -> int;

/// Whether `c` is an ASCII digit.
pub open spec fn is_ascii_digit(c: char) -> bool {
    48 <= (c as u32) <= 57
}

/// Whether `c` is an ASCII digit other than `0`.
pub open spec fn is_nonzero_digit(c: char) -> bool {
    49 <= (c as u32) <= 57
}

/// The Unicode scalar value of `c`.
pub open spec fn char_code(c: char) -> int {
    c as u32 as int
}

/// Where the run of ASCII digits of `s` that starts at `k` ends.
pub open spec fn digit_run_end(s: Seq<char>, k: int) -> int
    decreases s.len() - k,
{
    if 0 <= k < s.len() && is_ascii_digit(s[k]) {
        digit_run_end(s, k + 1)
    } else {
        k
    }
}

/// Whether `a` and `b` agree on their first `k` characters, none of which
/// is an ASCII digit.
pub open spec fn same_plain_prefix(a: Seq<char>, b: Seq<char>, k: int) -> bool {
    &&& 0 <= k <= a.len()
    &&& k <= b.len()
    &&& a.subrange(0, k) == b.subrange(0, k)
    &&& forall|i: int| 0 <= i < k ==> !is_ascii_digit(#[trigger] a[i])
}

/// Whether the natural ordering's rules put `a` strictly before `b`, judged
/// after a common prefix of `k` characters with no digit in it: `a` ends
/// there and `b` does not; or the next characters differ, are not both
/// digits, and `a`'s has the lower code; or both begin a number without
/// leading zeros, and `a`'s number has fewer digits, or as many and the first
/// digit where they differ is lower in `a`.
pub open spec fn rule_before(a: Seq<char>, b: Seq<char>, k: int) -> bool {
    &&& same_plain_prefix(a, b, k)
    &&& {
        ||| k == a.len() && k < b.len()
        ||| k < a.len() && k < b.len() && a[k] != b[k] && !(is_ascii_digit(a[k]) && is_ascii_digit(b[k]))
            && char_code(a[k]) < char_code(b[k])
        ||| k < a.len() && k < b.len() && is_nonzero_digit(a[k]) && is_nonzero_digit(b[k]) && {
            ||| digit_run_end(a, k) < digit_run_end(b, k)
            ||| digit_run_end(a, k) == digit_run_end(b, k) && exists|m: int|
                k <= m < digit_run_end(a, k) && a.subrange(k, m) == b.subrange(k, m) && char_code(
                    #[trigger] a[m],
                ) < char_code(b[m])
        }
    }
}

/// Whether `sign`, the sign of comparing `a` with `b`, agrees with the
/// rules: negative where they put `a` first, positive where they put `b`
/// first, zero for the same name without digits.
pub open spec fn ordered_by_rules(a: Seq<char>, b: Seq<char>, sign: int) -> bool {
    forall|k: int|
        #![trigger rule_before(a, b, k)]
        #![trigger rule_before(b, a, k)]
        #![trigger same_plain_prefix(a, b, k)]
        {
            &&& rule_before(a, b, k) ==> sign < 0
            &&& rule_before(b, a, k) ==> sign > 0
            &&& same_plain_prefix(a, b, k) && k == a.len() && k == b.len() ==> sign == 0
        }
}

/// Whether a comparison answer `r` of `a` with `b` agrees with the rules.
pub open spec fn answer_follows_rules(a: Seq<char>, b: Seq<char>, r: i8) -> bool {
    ordered_by_rules(a, b, r as int)
}

/// Whether the natural order of `a` and `b` is known to agree with the
/// rules, from either side.
pub open spec fn follows_rules(a: Seq<char>, b: Seq<char>) -> bool {
    &&& natural_order(b, a) + natural_order(a, b) == 0
    &&& ordered_by_rules(a, b, natural_order(a, b))
}

/// Whether each two neighbouring items of `s` are ordered by the rules.
pub open spec fn neighbours_follow_rules<T: Named>(s: Seq<T>) -> bool {
    forall|i: int| 0 < i < s.len() ==> follows_rules(s[i - 1].name_view(), #[trigger] s[i].name_view())
}

/// Compares two names with `alphanumeric_sort::compare_str`. The contract
/// claims that the answer is the sign `natural_order(a, b)`, a function of the
/// two names alone, given as -1, 0 or 1; that comparing the names the other
/// way round gives the opposite sign (`compare_str` treats both names alike
/// at every step, so swapping them reverses each of its answers); and that
/// the answer follows the rules of `rule_before`, which the source shows:
/// characters outside numbers compare by their code while no number has been
/// met (`last_is_number` is still false), a name that ends first is less, and
/// numbers without leading zeros compare by their count of digits, then by
/// their first different digit. Transitivity of the ordering is not claimed.
#[verifier::external_body]
fn compare_names(a: &str, b: &str) -> (r: i8)
    ensures
        r == natural_order(a@, b@),
        natural_order(b@, a@) + r == 0,
        -1 <= r <= 1,
        answer_follows_rules(a@, b@, r),
{
    match compare_str(a, b) {
        Ordering::Less => -1,
        Ordering::Equal => 0,
        Ordering::Greater => 1,
    }
}

/// Something sorted by its name.
pub trait Named {
    spec fn name_view(&self) -> Seq<char>;

    fn name(&self) -> (r: &str)
        ensures
            r@ == self.name_view(),
    ;
}

impl Named for String {
    open spec fn name_view(&self) -> Seq<char> {
        self@
    }

    fn name(&self) -> (r: &str) {
        self.as_str()
    }
}

/// Whether each item of `s` does not sort before the one just before it.
pub open spec fn naturally_sorted<T: Named>(s: Seq<T>) -> bool {
    forall|i: int| 0 < i < s.len() ==> natural_order(#[trigger] s[i].name_view(), s[i - 1].name_view()) >= 0
}

/// Whether `r` holds the items of `s` rearranged by `pos` (item `k` of `r` is
/// item `pos[k]` of `s`, and no item of `s` is used twice), where two items
/// stand against their given order only when the later one sorts strictly
/// before the earlier one.
pub open spec fn stable_arrangement<T: Named>(s: Seq<T>, r: Seq<T>, pos: Seq<int>) -> bool {
    &&& pos.len() == r.len()
    &&& r.len() == s.len()
    &&& forall|k: int| 0 <= k < r.len() ==> 0 <= #[trigger] pos[k] < s.len() && r[k] == s[pos[k]]
    &&& forall|k1: int, k2: int| 0 <= k1 < k2 < r.len() ==> #[trigger] pos[k1] != #[trigger] pos[k2]
    &&& forall|k1: int, k2: int|
        0 <= k1 < k2 < r.len() && #[trigger] pos[k1] > #[trigger] pos[k2] ==> natural_order(
            r[k1].name_view(),
            r[k2].name_view(),
        ) < 0
}

/// The rules judge `a` against `b` as they judge `b` against `a`, with the
/// opposite sign.
pub proof fn lemma_follows_rules_flip(a: Seq<char>, b: Seq<char>)
    requires
        follows_rules(a, b),
    ensures
        follows_rules(b, a),
{
    assert forall|k: int| #![trigger rule_before(b, a, k)] #![trigger rule_before(a, b, k)] #![trigger same_plain_prefix(b, a, k)]
        {
            &&& rule_before(b, a, k) ==> natural_order(b, a) < 0
            &&& rule_before(a, b, k) ==> natural_order(b, a) > 0
            &&& same_plain_prefix(b, a, k) && k == b.len() && k == a.len() ==> natural_order(b, a) == 0
        } by {
        if same_plain_prefix(b, a, k) && k == b.len() && k == a.len() {
            assert(same_plain_prefix(a, b, k)) by {
                assert forall|i: int| 0 <= i < k implies !is_ascii_digit(#[trigger] a[i]) by {
                    assert(a[i] == a.subrange(0, k)[i]);
                    assert(b[i] == b.subrange(0, k)[i]);
                }
            }
        }
    }
}

/// In a sequence sorted by the natural order whose neighbours are ordered by
/// the rules, no item comes right after one that the rules put after it.
pub proof fn lemma_sorted_respects_rules<T: Named>(s: Seq<T>)
    requires
        naturally_sorted(s),
        neighbours_follow_rules(s),
    ensures
        forall|i: int, k: int|
            0 < i < s.len() ==> !#[trigger] rule_before(s[i].name_view(), s[i - 1].name_view(), k),
{
    assert forall|i: int, k: int| 0 < i < s.len() implies !#[trigger] rule_before(
        s[i].name_view(),
        s[i - 1].name_view(),
        k,
    ) by {
        assert(follows_rules(s[i - 1].name_view(), s[i].name_view()));
        assert(natural_order(s[i].name_view(), s[i - 1].name_view()) >= 0);
    }
}

/// Where a stable insertion puts `x` into `s`: after the last item that `x`
/// does not sort before, or first when it sorts before all of them.
pub open spec fn insert_position<T: Named>(s: Seq<T>, x: T) -> int
    decreases s.len(),
{
    if s.len() == 0 {
        0
    } else if natural_order(x.name_view(), s.last().name_view()) >= 0 {
        s.len() as int
    } else {
        insert_position(s.drop_last(), x)
    }
}

/// The items of `s` sorted by the natural order of their names, each item
/// inserted in turn, in the given order, after the items it does not sort
/// before.
pub open spec fn spec_natural_sort<T: Named>(s: Seq<T>) -> Seq<T>
    decreases s.len(),
{
    if s.len() == 0 {
        Seq::empty()
    } else {
        let r = spec_natural_sort(s.drop_last());
        r.insert(insert_position(r, s.last()), s.last())
    }
}

proof fn lemma_insert_position<T: Named>(s: Seq<T>, x: T, i: int)
    requires
        0 <= i <= s.len(),
        forall|j: int| i <= j < s.len() ==> natural_order(x.name_view(), #[trigger] s[j].name_view()) < 0,
        i > 0 ==> natural_order(x.name_view(), s[i - 1].name_view()) >= 0,
    ensures
        insert_position(s, x) == i,
    decreases s.len(),
{
    if s.len() > 0 && i < s.len() {
        assert(natural_order(x.name_view(), s[s.len() - 1].name_view()) < 0);
        lemma_insert_position(s.drop_last(), x, i);
    }
}

proof fn lemma_insert_to_multiset<T>(s: Seq<T>, i: int, x: T)
    requires
        0 <= i <= s.len(),
    ensures
        s.insert(i, x).to_multiset() =~= s.to_multiset().insert(x),
{
    let t = s.insert(i, x);
    assert(t.remove(i) =~= s);
    assert(t[i] == x);
    assert(t.remove(i).to_multiset() == t.to_multiset().remove(x));
    assert(t.contains(x));
    assert(t.to_multiset().count(x) > 0);
}

proof fn lemma_insert_keeps_arrangement<T: Named>(
    old_done: Seq<T>,
    before: Seq<T>,
    old_pos: Seq<int>,
    x: T,
    i: int,
)
    requires
        stable_arrangement(old_done, before, old_pos),
        0 <= i <= before.len(),
        forall|j: int| i <= j < before.len() ==> natural_order(x.name_view(), #[trigger] before[j].name_view()) < 0,
    ensures
        stable_arrangement(old_done.push(x), before.insert(i, x), old_pos.insert(i, old_done.len() as int)),
{
    let done = old_done.push(x);
    let out = before.insert(i, x);
    let pos = old_pos.insert(i, old_done.len() as int);
    let d = old_done.len() as int;
    assert forall|k: int| 0 <= k < out.len() implies 0 <= #[trigger] pos[k] < done.len() && out[k] == done[pos[k]] by {
        if k < i {
            assert(pos[k] == old_pos[k]);
            assert(out[k] == before[k]);
        } else if k == i {
            assert(pos[k] == d);
        } else {
            assert(pos[k] == old_pos[k - 1]);
            assert(out[k] == before[k - 1]);
        }
    }
    assert forall|k1: int, k2: int| 0 <= k1 < k2 < out.len() implies #[trigger] pos[k1] != #[trigger] pos[k2] by {
        let a = if k1 < i { k1 } else { k1 - 1 };
        let b = if k2 < i { k2 } else { k2 - 1 };
        if k1 != i && k2 != i {
            assert(pos[k1] == old_pos[a] && pos[k2] == old_pos[b]);
            assert(old_pos[a] != old_pos[b]);
        } else if k1 == i {
            assert(pos[k2] == old_pos[b]);
            assert(old_pos[b] < d);
        } else {
            assert(pos[k1] == old_pos[a]);
            assert(old_pos[a] < d);
        }
    }
    assert forall|k1: int, k2: int|
        0 <= k1 < k2 < out.len() && #[trigger] pos[k1] > #[trigger] pos[k2] implies natural_order(
        out[k1].name_view(),
        out[k2].name_view(),
    ) < 0 by {
        let a = if k1 < i { k1 } else { k1 - 1 };
        let b = if k2 < i { k2 } else { k2 - 1 };
        if k1 != i && k2 != i {
            assert(pos[k1] == old_pos[a] && pos[k2] == old_pos[b]);
            assert(out[k1] == before[a] && out[k2] == before[b]);
            assert(old_pos[a] > old_pos[b]);
        } else if k1 == i {
            assert(out[k1] == x);
            assert(out[k2] == before[b]);
            assert(b >= i);
        } else {
            assert(pos[k1] == old_pos[a]);
            assert(old_pos[a] < d);
        }
    }
}

proof fn lemma_insert_keeps_rules<T: Named>(before: Seq<T>, x: T, i: int)
    requires
        neighbours_follow_rules(before),
        0 <= i <= before.len(),
        forall|j: int| i <= j < before.len() ==> follows_rules(x.name_view(), #[trigger] before[j].name_view()),
        i > 0 ==> follows_rules(before[i - 1].name_view(), x.name_view()),
    ensures
        neighbours_follow_rules(before.insert(i, x)),
{
    let out = before.insert(i, x);
    assert forall|k: int| 0 < k < out.len() implies follows_rules(
        out[k - 1].name_view(),
        #[trigger] out[k].name_view(),
    ) by {
        if k < i {
            assert(out[k] == before[k] && out[k - 1] == before[k - 1]);
        } else if k == i {
            assert(out[k - 1] == before[k - 1]);
        } else if k == i + 1 {
            assert(out[k] == before[i]);
        } else {
            assert(out[k] == before[k - 1] && out[k - 1] == before[k - 2]);
        }
    }
}

proof fn lemma_insert_keeps_sorted<T: Named>(before: Seq<T>, x: T, i: int)
    requires
        naturally_sorted(before),
        0 <= i <= before.len(),
        forall|j: int| i <= j < before.len() ==> natural_order(#[trigger] before[j].name_view(), x.name_view()) > 0,
        i > 0 ==> natural_order(x.name_view(), before[i - 1].name_view()) >= 0,
    ensures
        naturally_sorted(before.insert(i, x)),
{
    let out = before.insert(i, x);
    assert forall|k: int| 0 < k < out.len() implies natural_order(
        #[trigger] out[k].name_view(),
        out[k - 1].name_view(),
    ) >= 0 by {
        if k < i {
            assert(out[k] == before[k] && out[k - 1] == before[k - 1]);
        } else if k == i {
            assert(out[k - 1] == before[k - 1]);
        } else if k == i + 1 {
            assert(out[k] == before[i]);
        } else {
            assert(out[k] == before[k - 1] && out[k - 1] == before[k - 2]);
        }
    }
}

/// Sorts `items` by the natural order of their names: an item is moved
/// before an earlier one only when it sorts strictly before it, so items of
/// equal names keep their given order.
pub fn natural_sort<T: Named>(items: Vec<T>) -> (r: Vec<T>)
    ensures
        r@.to_multiset() == items@.to_multiset(),
        exists|pos: Seq<int>| stable_arrangement(items@, r@, pos),
        naturally_sorted(r@),
        r@ == spec_natural_sort(items@),
        neighbours_follow_rules(r@),
        forall|i: int, k: int|
            0 < i < r@.len() ==> !#[trigger] rule_before(r@[i].name_view(), r@[i - 1].name_view(), k),
{
    let ghost input = items@;
    let mut out: Vec<T> = Vec::new();
    let mut rest = items;
    let ghost mut done: Seq<T> = Seq::empty();
    let ghost mut pos: Seq<int> = Seq::empty();
    assert(input =~= done + rest@);
    while rest.len() > 0
        invariant
            input =~= done + rest@,
            out@.to_multiset() == done.to_multiset(),
            naturally_sorted(out@),
            stable_arrangement(done, out@, pos),
            out@ == spec_natural_sort(done),
            neighbours_follow_rules(out@),
        decreases rest.len(),
    {
        let ghost before = out@;
        let x = rest.remove(0);
        let ghost old_done = done;
        let ghost old_pos = pos;
        proof {
            done = done.push(x);
        }
        assert(input =~= done + rest@);
        let mut i: usize = out.len();
        loop
            invariant_except_break
                out@ == before,
                i <= out.len(),
                forall|j: int| i <= j < out.len() ==> natural_order(x.name_view(), #[trigger] out@[j].name_view()) < 0,
                forall|j: int| i <= j < out.len() ==> natural_order(#[trigger] out@[j].name_view(), x.name_view()) > 0,
                forall|j: int| i <= j < out.len() ==> follows_rules(x.name_view(), #[trigger] out@[j].name_view()),
            ensures
                out@ == before,
                i <= out.len(),
                forall|j: int| i <= j < out.len() ==> natural_order(x.name_view(), #[trigger] out@[j].name_view()) < 0,
                forall|j: int| i <= j < out.len() ==> natural_order(#[trigger] out@[j].name_view(), x.name_view()) > 0,
                i > 0 ==> natural_order(x.name_view(), out@[i - 1].name_view()) >= 0,
                forall|j: int| i <= j < out.len() ==> follows_rules(x.name_view(), #[trigger] out@[j].name_view()),
                i > 0 ==> follows_rules(out@[i - 1].name_view(), x.name_view()),
            decreases i,
        {
            if i == 0 {
                break;
            }
            let c: i8 = compare_names(x.name(), out[i - 1].name());
            assert(follows_rules(x.name_view(), out@[i - 1].name_view()));
            if c >= 0 {
                proof {
                    lemma_follows_rules_flip(x.name_view(), out@[i - 1].name_view());
                }
                break;
            }
            i = i - 1;
        }
        proof {
            lemma_insert_to_multiset(before, i as int, x);
        }
        out.insert(i, x);
        assert(out@ =~= before.insert(i as int, x));
        assert(out@ == spec_natural_sort(done)) by {
            lemma_insert_position(before, x, i as int);
            assert(done.drop_last() =~= old_done);
            assert(done.last() == x);
        }
        proof {
            pos = old_pos.insert(i as int, old_done.len() as int);
            lemma_insert_keeps_arrangement(old_done, before, old_pos, x, i as int);
            lemma_insert_keeps_sorted(before, x, i as int);
            lemma_insert_keeps_rules(before, x, i as int);
        }
    }
    proof {
        lemma_sorted_respects_rules(out@);
    }
    assert(done =~= input);
    assert(stable_arrangement(input, out@, pos));
    out
}

} // verus!

use vstd::prelude::*;

verus! {

/// A skill that a player can arm before a shot.
#[derive(Clone, Copy, PartialEq, Eq, Hash, Debug, Structural)]
pub enum SkillKind {
    Jetpack,
    Heavy,
    Triple,
    Scatter,
}

/// Number of occurrences of `k` in `s`.
pub open spec fn count_of(s: Seq<SkillKind>, k: SkillKind) -> nat
    decreases s.len(),
{
    if s.len() == 0 {
        0
    } else {
        count_of(s.drop_last(), k) + if s.last() == k {
            1nat
        } else {
            0nat
        }
    }
}

/// `n` copies of `k`.
pub open spec fn repeat(k: SkillKind, n: nat) -> Seq<SkillKind> {
    Seq::new(n, |_i: int| k)
}

/// The skills of `s` in rank order (jetpack, heavy, triple, scatter): what a
/// stable sort by rank makes of `s`.
pub open spec fn arranged(s: Seq<SkillKind>) -> Seq<SkillKind> {
    repeat(SkillKind::Jetpack, count_of(s, SkillKind::Jetpack)) + repeat(
        SkillKind::Heavy,
        count_of(s, SkillKind::Heavy),
    ) + repeat(SkillKind::Triple, count_of(s, SkillKind::Triple)) + repeat(
        SkillKind::Scatter,
        count_of(s, SkillKind::Scatter),
    )
}

/// `s` with every occurrence of `k` removed, the rest in order.
pub open spec fn without(s: Seq<SkillKind>, k: SkillKind) -> Seq<SkillKind>
    decreases s.len(),
{
    if s.len() == 0 {
        s
    } else if s.last() == k {
        without(s.drop_last(), k)
    } else {
        without(s.drop_last(), k).push(s.last())
    }
}

/// A combination of skills may be armed together: at most two skills, and the
/// jetpack only on its own.
pub open spec fn is_valid_combo(s: Seq<SkillKind>) -> bool {
    s.len() <= 2 && (s.contains(SkillKind::Jetpack) ==> s.len() == 1)
}

/// What a loadout always is: a valid combination with at most one scatter,
/// kept in rank order.
pub open spec fn is_well_formed_loadout(s: Seq<SkillKind>) -> bool {
    is_valid_combo(s) && count_of(s, SkillKind::Scatter) <= 1 && arranged(s) == s
}

/// The loadout after pressing the button of `skill` on loadout `s`.
pub open spec fn toggled(s: Seq<SkillKind>, skill: SkillKind) -> Seq<SkillKind> {
    if skill == SkillKind::Jetpack {
        if s.contains(SkillKind::Jetpack) {
            Seq::empty()
        } else {
            seq![SkillKind::Jetpack]
        }
    } else if s.contains(SkillKind::Jetpack) {
        s
    } else if skill == SkillKind::Scatter {
        if s.contains(SkillKind::Scatter) {
            without(s, SkillKind::Scatter)
        } else if is_valid_combo(s.push(SkillKind::Scatter)) {
            arranged(s.push(SkillKind::Scatter))
        } else {
            s
        }
    } else {
        // heavy and triple stack up to two copies; one more press drops them all
        if count_of(s, skill) >= 2 {
            without(s, skill)
        } else if is_valid_combo(s.push(skill)) {
            arranged(s.push(skill))
        } else if count_of(s, skill) == 1 {
            without(s, skill)
        } else {
            s
        }
    }
}

pub proof fn lemma_count_concat(a: Seq<SkillKind>, b: Seq<SkillKind>, k: SkillKind)
    ensures
        count_of(a + b, k) == count_of(a, k) + count_of(b, k),
    decreases b.len(),
{
    if b.len() > 0 {
        assert((a + b).drop_last() =~= a + b.drop_last());
        lemma_count_concat(a, b.drop_last(), k);
    } else {
        assert(a + b =~= a);
    }
}

pub proof fn lemma_count_repeat(k: SkillKind, n: nat, j: SkillKind)
    ensures
        count_of(repeat(k, n), j) == if k == j {
            n
        } else {
            0
        },
    decreases n,
{
    if n > 0 {
        assert(repeat(k, n).drop_last() =~= repeat(k, (n - 1) as nat));
        lemma_count_repeat(k, (n - 1) as nat, j);
    }
}

pub proof fn lemma_count_arranged(s: Seq<SkillKind>, j: SkillKind)
    ensures
        count_of(arranged(s), j) == count_of(s, j),
{
    let a = repeat(SkillKind::Jetpack, count_of(s, SkillKind::Jetpack));
    let b = repeat(SkillKind::Heavy, count_of(s, SkillKind::Heavy));
    let c = repeat(SkillKind::Triple, count_of(s, SkillKind::Triple));
    let d = repeat(SkillKind::Scatter, count_of(s, SkillKind::Scatter));
    lemma_count_concat(a + b + c, d, j);
    lemma_count_concat(a + b, c, j);
    lemma_count_concat(a, b, j);
    lemma_count_repeat(SkillKind::Jetpack, count_of(s, SkillKind::Jetpack), j);
    lemma_count_repeat(SkillKind::Heavy, count_of(s, SkillKind::Heavy), j);
    lemma_count_repeat(SkillKind::Triple, count_of(s, SkillKind::Triple), j);
    lemma_count_repeat(SkillKind::Scatter, count_of(s, SkillKind::Scatter), j);
}

/// Two sequences with the same number of each skill arrange alike.
pub proof fn lemma_arranged_by_counts(s: Seq<SkillKind>, t: Seq<SkillKind>)
    requires
        forall|k: SkillKind| count_of(s, k) == count_of(t, k),
    ensures
        arranged(s) == arranged(t),
{
    assert(count_of(s, SkillKind::Jetpack) == count_of(t, SkillKind::Jetpack));
    assert(count_of(s, SkillKind::Heavy) == count_of(t, SkillKind::Heavy));
    assert(count_of(s, SkillKind::Triple) == count_of(t, SkillKind::Triple));
    assert(count_of(s, SkillKind::Scatter) == count_of(t, SkillKind::Scatter));
}

pub proof fn lemma_arranged_idempotent(s: Seq<SkillKind>)
    ensures
        arranged(arranged(s)) == arranged(s),
{
    assert forall|k: SkillKind| count_of(arranged(s), k) == count_of(s, k) by {
        lemma_count_arranged(s, k);
    }
    lemma_arranged_by_counts(arranged(s), s);
}

pub proof fn lemma_contains_count(s: Seq<SkillKind>, k: SkillKind)
    ensures
        s.contains(k) <==> count_of(s, k) > 0,
    decreases s.len(),
{
    if s.len() > 0 {
        lemma_contains_count(s.drop_last(), k);
        if s.contains(k) {
            let i = choose|i: int| 0 <= i < s.len() && s[i] == k;
            if i < s.len() - 1 {
                assert(s.drop_last()[i] == k);
            }
        }
        if s.drop_last().contains(k) {
            let i = choose|i: int| 0 <= i < s.drop_last().len() && s.drop_last()[i] == k;
            assert(s[i] == k);
        }
        if s.last() == k {
            assert(s[s.len() - 1] == k);
        }
    }
}

pub proof fn lemma_count_total(s: Seq<SkillKind>)
    ensures
        count_of(s, SkillKind::Jetpack) + count_of(s, SkillKind::Heavy) + count_of(
            s,
            SkillKind::Triple,
        ) + count_of(s, SkillKind::Scatter) == s.len(),
    decreases s.len(),
{
    if s.len() > 0 {
        lemma_count_total(s.drop_last());
    }
}

pub proof fn lemma_count_push(s: Seq<SkillKind>, x: SkillKind, k: SkillKind)
    ensures
        count_of(s.push(x), k) == count_of(s, k) + if x == k {
            1nat
        } else {
            0nat
        },
{
    assert(s.push(x).drop_last() =~= s);
}

pub proof fn lemma_count_without(s: Seq<SkillKind>, k: SkillKind, j: SkillKind)
    ensures
        count_of(without(s, k), j) == if j == k {
            0
        } else {
            count_of(s, j)
        },
    decreases s.len(),
{
    if s.len() > 0 {
        lemma_count_without(s.drop_last(), k, j);
        if s.last() != k {
            lemma_count_push(without(s.drop_last(), k), s.last(), j);
        }
    }
}

pub proof fn lemma_without_concat(a: Seq<SkillKind>, b: Seq<SkillKind>, k: SkillKind)
    ensures
        without(a + b, k) == without(a, k) + without(b, k),
    decreases b.len(),
{
    if b.len() > 0 {
        assert((a + b).drop_last() =~= a + b.drop_last());
        assert((a + b).last() == b.last());
        lemma_without_concat(a, b.drop_last(), k);
        if b.last() != k {
            assert(without(a, k) + without(b.drop_last(), k).push(b.last()) =~= (without(a, k)
                + without(b.drop_last(), k)).push(b.last()));
        }
    } else {
        assert(a + b =~= a);
        assert(without(a, k) + without(b, k) =~= without(a, k));
    }
}

pub proof fn lemma_without_repeat(x: SkillKind, n: nat, k: SkillKind)
    ensures
        without(repeat(x, n), k) == if x == k {
            Seq::<SkillKind>::empty()
        } else {
            repeat(x, n)
        },
    decreases n,
{
    if n > 0 {
        assert(repeat(x, n).drop_last() =~= repeat(x, (n - 1) as nat));
        lemma_without_repeat(x, (n - 1) as nat, k);
        if x != k {
            assert(repeat(x, (n - 1) as nat).push(x) =~= repeat(x, n));
        }
    } else {
        assert(repeat(x, n) =~= Seq::<SkillKind>::empty());
    }
}

/// Removing every copy of one skill from a loadout in rank order leaves it in rank order.
pub proof fn lemma_without_arranged(s: Seq<SkillKind>, k: SkillKind)
    requires
        arranged(s) == s,
    ensures
        arranged(without(s, k)) == without(s, k),
{
    let a = repeat(SkillKind::Jetpack, count_of(s, SkillKind::Jetpack));
    let b = repeat(SkillKind::Heavy, count_of(s, SkillKind::Heavy));
    let c = repeat(SkillKind::Triple, count_of(s, SkillKind::Triple));
    let d = repeat(SkillKind::Scatter, count_of(s, SkillKind::Scatter));
    lemma_without_concat(a + b + c, d, k);
    lemma_without_concat(a + b, c, k);
    lemma_without_concat(a, b, k);
    lemma_without_repeat(SkillKind::Jetpack, count_of(s, SkillKind::Jetpack), k);
    lemma_without_repeat(SkillKind::Heavy, count_of(s, SkillKind::Heavy), k);
    lemma_without_repeat(SkillKind::Triple, count_of(s, SkillKind::Triple), k);
    lemma_without_repeat(SkillKind::Scatter, count_of(s, SkillKind::Scatter), k);
    let w = without(s, k);
    lemma_count_without(s, k, SkillKind::Jetpack);
    lemma_count_without(s, k, SkillKind::Heavy);
    lemma_count_without(s, k, SkillKind::Triple);
    lemma_count_without(s, k, SkillKind::Scatter);
    let e = Seq::<SkillKind>::empty();
    let wa = repeat(SkillKind::Jetpack, count_of(w, SkillKind::Jetpack));
    let wb = repeat(SkillKind::Heavy, count_of(w, SkillKind::Heavy));
    let wc = repeat(SkillKind::Triple, count_of(w, SkillKind::Triple));
    let wd = repeat(SkillKind::Scatter, count_of(w, SkillKind::Scatter));
    assert(wa == if k == SkillKind::Jetpack { e } else { a }) by {
        if k == SkillKind::Jetpack {
            assert(wa =~= e);
        }
    }
    assert(wb == if k == SkillKind::Heavy { e } else { b }) by {
        if k == SkillKind::Heavy {
            assert(wb =~= e);
        }
    }
    assert(wc == if k == SkillKind::Triple { e } else { c }) by {
        if k == SkillKind::Triple {
            assert(wc =~= e);
        }
    }
    assert(wd == if k == SkillKind::Scatter { e } else { d }) by {
        if k == SkillKind::Scatter {
            assert(wd =~= e);
        }
    }
    assert(without(a, k) == wa);
    assert(without(b, k) == wb);
    assert(without(c, k) == wc);
    assert(without(d, k) == wd);
}

pub proof fn lemma_without_len(s: Seq<SkillKind>, k: SkillKind)
    ensures
        without(s, k).len() <= s.len(),
        without(s, k).len() == s.len() - count_of(s, k),
    decreases s.len(),
{
    if s.len() > 0 {
        lemma_without_len(s.drop_last(), k);
    }
}

pub proof fn lemma_without_contains(s: Seq<SkillKind>, k: SkillKind, j: SkillKind)
    ensures
        without(s, k).contains(j) <==> (j != k && s.contains(j)),
{
    lemma_count_without(s, k, j);
    lemma_contains_count(without(s, k), j);
    lemma_contains_count(s, j);
}

pub proof fn lemma_arranged_len(s: Seq<SkillKind>)
    ensures
        arranged(s).len() == s.len(),
{
    lemma_count_total(s);
}

pub proof fn lemma_arranged_contains(s: Seq<SkillKind>, j: SkillKind)
    ensures
        arranged(s).contains(j) <==> s.contains(j),
{
    lemma_count_arranged(s, j);
    lemma_contains_count(arranged(s), j);
    lemma_contains_count(s, j);
}

/// Law: pressing any skill button on a well-formed loadout gives a
/// well-formed loadout (a valid combination, in rank order).
pub proof fn lemma_toggle_keeps_well_formed(s: Seq<SkillKind>, skill: SkillKind)
    requires
        is_well_formed_loadout(s),
    ensures
        is_well_formed_loadout(toggled(s, skill)),
{
    let r = toggled(s, skill);
    if skill == SkillKind::Jetpack {
        if s.contains(SkillKind::Jetpack) {
            assert(arranged(Seq::<SkillKind>::empty()) =~= Seq::<SkillKind>::empty());
        } else {
            let j = seq![SkillKind::Jetpack];
            let e = Seq::<SkillKind>::empty();
            assert(e.push(SkillKind::Jetpack) =~= j);
            lemma_count_push(e, SkillKind::Jetpack, SkillKind::Jetpack);
            lemma_count_push(e, SkillKind::Jetpack, SkillKind::Heavy);
            lemma_count_push(e, SkillKind::Jetpack, SkillKind::Triple);
            lemma_count_push(e, SkillKind::Jetpack, SkillKind::Scatter);
            assert(arranged(j) =~= j);
        }
    } else if s.contains(SkillKind::Jetpack) {
    } else if skill == SkillKind::Scatter {
        if s.contains(SkillKind::Scatter) {
            lemma_without_arranged(s, SkillKind::Scatter);
            lemma_without_len(s, SkillKind::Scatter);
            lemma_without_contains(s, SkillKind::Scatter, SkillKind::Jetpack);
            lemma_count_without(s, SkillKind::Scatter, SkillKind::Scatter);
        } else if is_valid_combo(s.push(SkillKind::Scatter)) {
            lemma_arranged_idempotent(s.push(SkillKind::Scatter));
            lemma_arranged_len(s.push(SkillKind::Scatter));
            lemma_arranged_contains(s.push(SkillKind::Scatter), SkillKind::Jetpack);
            lemma_count_arranged(s.push(SkillKind::Scatter), SkillKind::Scatter);
            lemma_count_push(s, SkillKind::Scatter, SkillKind::Scatter);
            lemma_contains_count(s, SkillKind::Scatter);
        }
    } else {
        if count_of(s, skill) >= 2 || (!is_valid_combo(s.push(skill)) && count_of(s, skill)
            == 1) {
            lemma_without_arranged(s, skill);
            lemma_without_len(s, skill);
            lemma_without_contains(s, skill, SkillKind::Jetpack);
            lemma_count_without(s, skill, SkillKind::Scatter);
        } else if is_valid_combo(s.push(skill)) {
            lemma_arranged_idempotent(s.push(skill));
            lemma_arranged_len(s.push(skill));
            lemma_arranged_contains(s.push(skill), SkillKind::Jetpack);
            lemma_count_arranged(s.push(skill), SkillKind::Scatter);
            lemma_count_push(s, skill, SkillKind::Scatter);
        }
    }
}

/// Law: with the jetpack off, pressing scatter twice gives back the loadout
/// whenever the first press changed it (it had scatter, or room for it).
pub proof fn lemma_scatter_twice(s: Seq<SkillKind>)
    requires
        is_well_formed_loadout(s),
        !s.contains(SkillKind::Jetpack),
        s.contains(SkillKind::Scatter) || s.len() <= 1,
    ensures
        toggled(toggled(s, SkillKind::Scatter), SkillKind::Scatter) == s,
{
    let sc = SkillKind::Scatter;
    lemma_contains_count(s, sc);
    if s.contains(sc) {
        let t = without(s, sc);
        lemma_without_len(s, sc);
        lemma_without_contains(s, sc, SkillKind::Jetpack);
        lemma_without_contains(s, sc, sc);
        assert(!t.push(sc).contains(SkillKind::Jetpack)) by {
            if t.push(sc).contains(SkillKind::Jetpack) {
                let i = choose|i: int| 0 <= i < t.push(sc).len() && t.push(sc)[i] == SkillKind::Jetpack;
                assert(t[i] == SkillKind::Jetpack);
            }
        }
        assert(toggled(t, sc) == arranged(t.push(sc)));
        assert forall|k: SkillKind| count_of(t.push(sc), k) == count_of(s, k) by {
            lemma_count_push(t, sc, k);
            lemma_count_without(s, sc, k);
        }
        lemma_arranged_by_counts(t.push(sc), s);
    } else {
        let u = arranged(s.push(sc));
        assert(!s.push(sc).contains(SkillKind::Jetpack)) by {
            if s.push(sc).contains(SkillKind::Jetpack) {
                let i = choose|i: int| 0 <= i < s.push(sc).len() && s.push(sc)[i] == SkillKind::Jetpack;
                assert(s[i] == SkillKind::Jetpack);
            }
        }
        assert(toggled(s, sc) == u);
        lemma_count_arranged(s.push(sc), sc);
        lemma_count_push(s, sc, sc);
        lemma_contains_count(u, sc);
        lemma_arranged_contains(s.push(sc), SkillKind::Jetpack);
        assert(toggled(u, sc) == without(u, sc));
        lemma_arranged_idempotent(s.push(sc));
        lemma_without_arranged(u, sc);
        assert forall|k: SkillKind| count_of(without(u, sc), k) == count_of(s, k) by {
            lemma_count_without(u, sc, k);
            lemma_count_arranged(s.push(sc), k);
            lemma_count_push(s, sc, k);
        }
        lemma_arranged_by_counts(without(u, sc), s);
    }
}

/// Law: counting is additive: the copies of `k` in `a + b` are those in `a`
/// plus those in `b`, and a single skill counts once for itself only.
pub proof fn lemma_count_law(a: Seq<SkillKind>, b: Seq<SkillKind>, x: SkillKind, k: SkillKind)
    ensures
        count_of(a + b, k) == count_of(a, k) + count_of(b, k),
        count_of(seq![x], k) == if x == k {
            1nat
        } else {
            0nat
        },
{
    lemma_count_concat(a, b, k);
    lemma_count_push(Seq::<SkillKind>::empty(), x, k);
    assert(Seq::<SkillKind>::empty().push(x) =~= seq![x]);
}

/// Law: a scatter press never changes how many heavies or triples are
/// armed; and with the jetpack off, on a loadout without scatter and with
/// no room left (two skills armed) it changes nothing at all.
pub proof fn lemma_scatter_keeps_stacks(s: Seq<SkillKind>)
    requires
        is_well_formed_loadout(s),
    ensures
        count_of(toggled(s, SkillKind::Scatter), SkillKind::Heavy) == count_of(s, SkillKind::Heavy),
        count_of(toggled(s, SkillKind::Scatter), SkillKind::Triple) == count_of(
            s,
            SkillKind::Triple,
        ),
        !s.contains(SkillKind::Jetpack) && !s.contains(SkillKind::Scatter) && s.len() >= 2
            ==> toggled(s, SkillKind::Scatter) == s,
{
    let sc = SkillKind::Scatter;
    if s.contains(SkillKind::Jetpack) {
    } else if s.contains(sc) {
        lemma_count_without(s, sc, SkillKind::Heavy);
        lemma_count_without(s, sc, SkillKind::Triple);
    } else if is_valid_combo(s.push(sc)) {
        lemma_count_arranged(s.push(sc), SkillKind::Heavy);
        lemma_count_arranged(s.push(sc), SkillKind::Triple);
        lemma_count_push(s, sc, SkillKind::Heavy);
        lemma_count_push(s, sc, SkillKind::Triple);
    }
}

/// Law: pressing the jetpack twice gives back a jetpack loadout, and clears
/// any other loadout.
pub proof fn lemma_jetpack_twice(s: Seq<SkillKind>)
    requires
        is_well_formed_loadout(s),
    ensures
        toggled(toggled(s, SkillKind::Jetpack), SkillKind::Jetpack) == if s.contains(
            SkillKind::Jetpack,
        ) {
            s
        } else {
            Seq::<SkillKind>::empty()
        },
{
    let j = SkillKind::Jetpack;
    if s.contains(j) {
        let i = choose|i: int| 0 <= i < s.len() && s[i] == j;
        assert(s =~= seq![j]);
        assert(!Seq::<SkillKind>::empty().contains(j));
    } else {
        assert(seq![j][0] == j);
        assert(seq![j].contains(j));
    }
}

/// `s` after `n` presses of the button of `k`.
pub open spec fn toggled_times(s: Seq<SkillKind>, k: SkillKind, n: nat) -> Seq<SkillKind>
    decreases n,
{
    if n == 0 {
        s
    } else {
        toggled(toggled_times(s, k, (n - 1) as nat), k)
    }
}

pub proof fn lemma_arranged_repeat(k: SkillKind, n: nat)
    ensures
        arranged(repeat(k, n)) == repeat(k, n),
{
    lemma_count_repeat(k, n, SkillKind::Jetpack);
    lemma_count_repeat(k, n, SkillKind::Heavy);
    lemma_count_repeat(k, n, SkillKind::Triple);
    lemma_count_repeat(k, n, SkillKind::Scatter);
    assert(arranged(repeat(k, n)) =~= repeat(k, n));
}

/// Law: with the jetpack off, pressing heavy (or triple) on a loadout
/// without it adds copies while they fit, and the press after that drops
/// them all: after as many presses as the loadout has free places plus one,
/// it is back where it started.
pub proof fn lemma_stacking_cycle(s: Seq<SkillKind>, k: SkillKind)
    requires
        is_well_formed_loadout(s),
        k == SkillKind::Heavy || k == SkillKind::Triple,
        !s.contains(SkillKind::Jetpack),
        count_of(s, k) == 0,
    ensures
        toggled_times(s, k, (3 - s.len()) as nat) == s,
{
    let j = SkillKind::Jetpack;
    lemma_contains_count(s, k);
    if s.len() == 0 {
        let one = repeat(k, 1);
        let two = repeat(k, 2);
        assert(s.push(k) =~= one);
        assert(one.push(k) =~= two);
        lemma_arranged_repeat(k, 1);
        lemma_arranged_repeat(k, 2);
        lemma_count_repeat(k, 1, k);
        lemma_count_repeat(k, 2, k);
        lemma_count_repeat(k, 1, j);
        lemma_count_repeat(k, 2, j);
        lemma_contains_count(one, j);
        lemma_contains_count(two, j);
        lemma_contains_count(s.push(k), j);
        assert(toggled(s, k) == one);
        assert(toggled(one, k) == two);
        lemma_without_repeat(k, 2, k);
        assert(toggled(two, k) == Seq::<SkillKind>::empty());
        assert(s =~= Seq::<SkillKind>::empty());
        assert(toggled_times(s, k, 0) == s);
        assert(toggled_times(s, k, 1) == one);
        assert(toggled_times(s, k, 2) == two);
        assert(toggled_times(s, k, 3) == s);
    } else if s.len() == 1 {
        let p = s.push(k);
        let u = arranged(p);
        lemma_count_push(s, k, j);
        lemma_contains_count(s, j);
        lemma_contains_count(p, j);
        assert(is_valid_combo(p));
        assert(toggled(s, k) == u);
        lemma_arranged_len(p);
        lemma_arranged_contains(p, j);
        lemma_count_arranged(p, k);
        lemma_count_push(s, k, k);
        assert(!is_valid_combo(u.push(k)));
        assert(toggled(u, k) == without(u, k));
        lemma_arranged_idempotent(p);
        lemma_without_arranged(u, k);
        assert forall|x: SkillKind| count_of(without(u, k), x) == count_of(s, x) by {
            lemma_count_without(u, k, x);
            lemma_count_arranged(p, x);
            lemma_count_push(s, k, x);
        }
        lemma_arranged_by_counts(without(u, k), s);
        assert(toggled_times(s, k, 0) == s);
        assert(toggled_times(s, k, 1) == u);
        assert(toggled_times(s, k, 2) == s);
    } else {
        assert(!is_valid_combo(s.push(k)));
        assert(toggled_times(s, k, 0) == s);
        assert(toggled_times(s, k, 1) == s);
    }
}

/// The text shown for a skill in the loadout summary.
pub open spec fn skill_label(k: SkillKind) -> &'static str {
    match k {
        SkillKind::Jetpack => "jet",
        SkillKind::Heavy => "heavy",
        SkillKind::Triple => "consecutive",
        SkillKind::Scatter => "scatter",
    }
}

fn contains_skill(s: &[SkillKind], k: SkillKind) -> (r: bool)
    ensures
        r == s@.contains(k),
{
    let mut i: usize = 0;
    while i < s.len()
        invariant
            i <= s.len(),
            forall|j: int| 0 <= j < i ==> s@[j] != k,
        decreases s.len() - i,
    {
        if s[i] == k {
            assert(s@[i as int] == k);
            return true;
        }
        i += 1;
    }
    false
}

fn count_skill(s: &[SkillKind], k: SkillKind) -> (r: usize)
    ensures
        r == count_of(s@, k),
{
    let mut n: usize = 0;
    let mut i: usize = 0;
    while i < s.len()
        invariant
            i <= s.len(),
            n == count_of(s@.take(i as int), k),
            n <= i,
        decreases s.len() - i,
    {
        assert(s@.take(i + 1).drop_last() =~= s@.take(i as int));
        if s[i] == k {
            n += 1;
        }
        i += 1;
    }
    assert(s@.take(s.len() as int) =~= s@);
    n
}

fn without_skill(s: &[SkillKind], k: SkillKind) -> (r: Vec<SkillKind>)
    ensures
        r@ == without(s@, k),
{
    let mut r: Vec<SkillKind> = Vec::new();
    let mut i: usize = 0;
    while i < s.len()
        invariant
            i <= s.len(),
            r@ == without(s@.take(i as int), k),
        decreases s.len() - i,
    {
        assert(s@.take(i + 1).drop_last() =~= s@.take(i as int));
        if s[i] != k {
            r.push(s[i]);
        }
        i += 1;
    }
    assert(s@.take(s.len() as int) =~= s@);
    r
}

fn copy_skills(s: &[SkillKind]) -> (r: Vec<SkillKind>)
    ensures
        r@ == s@,
{
    let mut r: Vec<SkillKind> = Vec::new();
    let mut i: usize = 0;
    while i < s.len()
        invariant
            i <= s.len(),
            r@ == s@.take(i as int),
        decreases s.len() - i,
    {
        r.push(s[i]);
        i += 1;
        assert(r@ =~= s@.take(i as int));
    }
    assert(s@.take(s.len() as int) =~= s@);
    r
}

fn push_copies(v: &mut Vec<SkillKind>, k: SkillKind, n: usize)
    ensures
        final(v)@ == old(v)@ + repeat(k, n as nat),
{
    let ghost start = v@;
    let mut i: usize = 0;
    assert(start + repeat(k, 0) =~= start);
    while i < n
        invariant
            i <= n,
            v@ == start + repeat(k, i as nat),
        decreases n - i,
    {
        v.push(k);
        i += 1;
        assert(v@ =~= start + repeat(k, i as nat));
    }
}

/// Sorts skills by rank (jetpack, heavy, triple, scatter).
fn arrange(s: &[SkillKind]) -> (r: Vec<SkillKind>)
    ensures
        r@ == arranged(s@),
{
    let jet = count_skill(s, SkillKind::Jetpack);
    let heavy = count_skill(s, SkillKind::Heavy);
    let triple = count_skill(s, SkillKind::Triple);
    let scatter = count_skill(s, SkillKind::Scatter);
    let mut r: Vec<SkillKind> = Vec::new();
    push_copies(&mut r, SkillKind::Jetpack, jet);
    push_copies(&mut r, SkillKind::Heavy, heavy);
    push_copies(&mut r, SkillKind::Triple, triple);
    push_copies(&mut r, SkillKind::Scatter, scatter);
    assert(r@ =~= arranged(s@));
    r
}

/// Whether `skills` may be armed together.
pub fn is_valid_skill_combo(skills: &[SkillKind]) -> (r: bool)
    ensures
        r == is_valid_combo(skills@),
{
    if skills.is_empty() {
        return true;
    }
    if skills.len() > 2 {
        return false;
    }
    if contains_skill(skills, SkillKind::Jetpack) {
        return skills.len() == 1;
    }
    let heavy = count_skill(skills, SkillKind::Heavy);
    let triple = count_skill(skills, SkillKind::Triple);
    let scatter = contains_skill(skills, SkillKind::Scatter);
    proof {
        lemma_count_total(skills@);
        lemma_contains_count(skills@, SkillKind::Jetpack);
        lemma_contains_count(skills@, SkillKind::Scatter);
    }
    match (heavy, triple, scatter) {
        (0, 0, false) => true,
        (1, 0, false) => true,
        (2, 0, false) => true,
        (0, 1, false) => true,
        (0, 2, false) => true,
        (0, 0, true) => true,
        (1, 1, false) => true,
        (1, 0, true) => true,
        (0, 1, true) => true,
        _ => false,
    }
}

/// The skills a player has armed for the next shot, kept in rank order.
pub struct SkillLoadout {
    entries: Vec<SkillKind>,
}

impl View for SkillLoadout {
    type V = Seq<SkillKind>;

    closed spec fn view(&self) -> Seq<SkillKind> {
        self.entries@
    }
}

impl SkillLoadout {
    #[verifier::type_invariant]
    spec fn well_formed(self) -> bool {
        is_well_formed_loadout(self.entries@)
    }

    /// An empty loadout.
    pub fn new() -> (r: Self)
        ensures
            r@ == Seq::<SkillKind>::empty(),
            is_well_formed_loadout(r@),
    {
        let entries: Vec<SkillKind> = Vec::new();
        assert(arranged(entries@) =~= entries@);
        SkillLoadout { entries }
    }

    pub fn jetpack_enabled(&self) -> (r: bool)
        ensures
            r == self@.contains(SkillKind::Jetpack),
    {
        contains_skill(self.entries.as_slice(), SkillKind::Jetpack)
    }

    pub fn heavy_count(&self) -> (r: usize)
        ensures
            r == count_of(self@, SkillKind::Heavy),
    {
        count_skill(self.entries.as_slice(), SkillKind::Heavy)
    }

    pub fn triple_count(&self) -> (r: usize)
        ensures
            r == count_of(self@, SkillKind::Triple),
    {
        count_skill(self.entries.as_slice(), SkillKind::Triple)
    }

    pub fn scatter_selected(&self) -> (r: bool)
        ensures
            r == self@.contains(SkillKind::Scatter),
    {
        contains_skill(self.entries.as_slice(), SkillKind::Scatter)
    }

    /// Presses the button of `skill`: the jetpack switches on alone or clears
    /// everything; while it is on, other buttons do nothing; scatter switches
    /// on or off; heavy and triple stack up to two copies and are dropped by
    /// the press after that (or when no second copy fits). A change that
    /// would make an invalid combination is not made.
    pub fn toggle(&mut self, skill: SkillKind)
        ensures
            final(self)@ == toggled(old(self)@, skill),
            is_well_formed_loadout(final(self)@),
    {
        proof {
            use_type_invariant(&*self);
        }
        let ghost s = self@;
        let jet = self.jetpack_enabled();
        let next: Vec<SkillKind>;
        match skill {
            SkillKind::Jetpack => {
                let mut fresh: Vec<SkillKind> = Vec::new();
                if !jet {
                    fresh.push(SkillKind::Jetpack);
                }
                next = fresh;
            },
            SkillKind::Scatter => {
                if jet {
                    return;
                }
                if contains_skill(self.entries.as_slice(), SkillKind::Scatter) {
                    next = without_skill(self.entries.as_slice(), SkillKind::Scatter);
                } else {
                    let mut candidate = copy_skills(self.entries.as_slice());
                    candidate.push(SkillKind::Scatter);
                    if is_valid_skill_combo(candidate.as_slice()) {
                        next = candidate;
                    } else {
                        next = copy_skills(self.entries.as_slice());
                    }
                }
            },
            SkillKind::Heavy | SkillKind::Triple => {
                if jet {
                    return;
                }
                let current = count_skill(self.entries.as_slice(), skill);
                let base = without_skill(self.entries.as_slice(), skill);
                match current {
                    0 => {
                        let mut candidate = copy_skills(self.entries.as_slice());
                        candidate.push(skill);
                        if is_valid_skill_combo(candidate.as_slice()) {
                            next = candidate;
                        } else {
                            next = copy_skills(self.entries.as_slice());
                        }
                    },
                    1 => {
                        let mut candidate = copy_skills(self.entries.as_slice());
                        candidate.push(skill);
                        if is_valid_skill_combo(candidate.as_slice()) {
                            next = candidate;
                        } else {
                            next = base;
                        }
                    },
                    _ => {
                        next = base;
                    },
                }
            },
        }
        let arranged_next = arrange(next.as_slice());
        proof {
            lemma_toggle_keeps_well_formed(s, skill);
            if skill == SkillKind::Jetpack {
                if !jet {
                    let e = Seq::<SkillKind>::empty();
                    assert(e.push(SkillKind::Jetpack) =~= next@);
                    lemma_count_push(e, SkillKind::Jetpack, SkillKind::Jetpack);
                    lemma_count_push(e, SkillKind::Jetpack, SkillKind::Heavy);
                    lemma_count_push(e, SkillKind::Jetpack, SkillKind::Triple);
                    lemma_count_push(e, SkillKind::Jetpack, SkillKind::Scatter);
                }
                assert(arranged(next@) =~= toggled(s, skill));
            } else if next@ == s {
            } else if next@ == s.push(skill) {
            } else {
                lemma_without_arranged(s, skill);
            }
        }
        self.entries = arranged_next;
    }

    /// How the button of `skill` shows this loadout: whether the skill is
    /// armed, and the number of copies to print beside it (heavy and triple
    /// only, when more than one is armed).
    pub fn button_state(&self, skill: SkillKind) -> (r: (bool, Option<usize>))
        ensures
            r.0 == self@.contains(skill),
            r.1 == if (skill == SkillKind::Heavy || skill == SkillKind::Triple) && count_of(
                self@,
                skill,
            ) > 1 {
                Some(count_of(self@, skill) as usize)
            } else {
                None::<usize>
            },
    {
        proof {
            lemma_contains_count(self@, skill);
        }
        match skill {
            SkillKind::Jetpack => (self.jetpack_enabled(), None),
            SkillKind::Heavy => {
                let heavy_count = self.heavy_count();
                (heavy_count > 0, if heavy_count > 1 {
                    Some(heavy_count)
                } else {
                    None
                })
            },
            SkillKind::Triple => {
                let triple_count = self.triple_count();
                (triple_count > 0, if triple_count > 1 {
                    Some(triple_count)
                } else {
                    None
                })
            },
            SkillKind::Scatter => (self.scatter_selected(), None),
        }
    }

    /// The text of each armed skill, in loadout order.
    pub fn labels(&self) -> (r: Vec<&'static str>)
        ensures
            r@.len() == self@.len(),
            forall|i: int| 0 <= i < r@.len() ==> r@[i] == skill_label(#[trigger] self@[i]),
    {
        if self.entries.is_empty() {
            return Vec::new();
        }
        let mut result: Vec<&'static str> = Vec::new();
        let mut i: usize = 0;
        while i < self.entries.len()
            invariant
                i <= self.entries.len(),
                result@.len() == i,
                forall|j: int| 0 <= j < i ==> result@[j] == skill_label(#[trigger] self.entries@[j]),
            decreases self.entries.len() - i,
        {
            match self.entries[i] {
                SkillKind::Jetpack => result.push("jet"),
                SkillKind::Heavy => result.push("heavy"),
                SkillKind::Triple => result.push("consecutive"),
                SkillKind::Scatter => result.push("scatter"),
            }
            i += 1;
        }
        result
    }
}

impl Clone for SkillLoadout {
    fn clone(&self) -> (r: Self)
        ensures
            r@ == self@,
    {
        proof {
            use_type_invariant(self);
        }
        SkillLoadout { entries: copy_skills(self.entries.as_slice()) }
    }
}

impl Default for SkillLoadout {
    fn default() -> (r: Self)
        ensures
            r@ == Seq::<SkillKind>::empty(),
    {
        SkillLoadout::new()
    }
}

/// Number of volleys a shot fires: scatter alone fires one spread volley,
/// one triple fires three, two triples fire five.
pub open spec fn volley_count(triple: nat, scatter: bool) -> nat {
    if triple == 0 {
        if scatter {
            1
        } else {
            0
        }
    } else if triple == 1 {
        3
    } else {
        5
    }
}

/// Angle offsets of one volley, in units of the scatter angle.
pub open spec fn volley_offsets(scatter: bool) -> Seq<i8> {
    if scatter {
        seq![-1i8, 0i8, 1i8]
    } else {
        seq![0i8]
    }
}

/// Damage multiplier in halves: 1.0, 1.5 or 2.0 for zero, one or more heavies.
pub open spec fn damage_multiplier_halves(heavy: nat) -> u8 {
    if heavy == 0 {
        2
    } else if heavy == 1 {
        3
    } else {
        4
    }
}

fn spread(scatter: bool) -> (r: Vec<i8>)
    ensures
        r@ == volley_offsets(scatter),
{
    let mut r: Vec<i8> = Vec::new();
    if scatter {
        r.push(-1);
        r.push(0);
        r.push(1);
    } else {
        r.push(0);
    }
    assert(r@ =~= volley_offsets(scatter));
    r
}

/// The volleys of a shot with `loadout`, each as (volley index, angle offsets
/// in units of the scatter angle), and the damage multiplier in halves.
/// Volley `i` leaves `i` triple delays after the trigger.
pub fn build_shot_pattern(loadout: &SkillLoadout) -> (r: (Vec<(usize, Vec<i8>)>, u8))
    ensures
        r.1 == damage_multiplier_halves(count_of(loadout@, SkillKind::Heavy)),
        r.0@.len() == volley_count(
            count_of(loadout@, SkillKind::Triple),
            loadout@.contains(SkillKind::Scatter),
        ),
        forall|i: int|
            0 <= i < r.0@.len() ==> (#[trigger] r.0@[i]).0 == i && r.0@[i].1@ == volley_offsets(
                loadout@.contains(SkillKind::Scatter),
            ),
{
    let heavy_count = loadout.heavy_count();
    let triple_count = loadout.triple_count();
    let scatter_selected = loadout.scatter_selected();

    let damage_multiplier: u8 = match heavy_count {
        0 => 2,
        1 => 3,
        _ => 4,
    };

    let mut pattern: Vec<(usize, Vec<i8>)> = Vec::new();
    let volleys: usize = match triple_count {
        0 => {
            if scatter_selected {
                1
            } else {
                0
            }
        },
        1 => 3,
        _ => 5,
    };
    let mut idx: usize = 0;
    while idx < volleys
        invariant
            idx <= volleys,
            pattern@.len() == idx,
            forall|i: int|
                0 <= i < idx ==> (#[trigger] pattern@[i]).0 == i && pattern@[i].1@
                    == volley_offsets(scatter_selected),
        decreases volleys - idx,
    {
        let offsets = spread(scatter_selected);
        pattern.push((idx, offsets));
        idx += 1;
    }
    (pattern, damage_multiplier)
}

} // verus!
